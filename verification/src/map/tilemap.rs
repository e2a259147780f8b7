use vstd::prelude::*;

use crate::map::storage::{
    cube, map_slot, remove_chunks, set_chunks, Chunk, ChunkKey, ChunkableIndex, ChunkedStorage,
    DEFAULT_CHUNK_SIZE,
};
use crate::math::{
    i32_div, i32_rem, lemma_trunc_div_rem, trunc_div, trunc_rem, IVec3, UVec2, UVec3,
};

verus! {

/// How a tile's texture is mirrored. Only the two lowest bits are meaningful:
/// `0b10` mirrors horizontally, `0b01` vertically.
#[derive(Debug, Clone, Copy)]
pub struct TileFlip {
    bits: u32,
}

impl View for TileFlip {
    type V = u32;

    closed spec fn view(&self) -> u32 {
        self.bits
    }
}

impl TileFlip {
    #[verifier::type_invariant]
    closed spec fn inv(self) -> bool {
        self.bits <= 3
    }

    pub fn none() -> (r: Self)
        ensures
            r@ == 0,
    {
        TileFlip { bits: 0 }
    }

    pub fn horizontal() -> (r: Self)
        ensures
            r@ == 2,
    {
        TileFlip { bits: 2 }
    }

    pub fn vertical() -> (r: Self)
        ensures
            r@ == 1,
    {
        TileFlip { bits: 1 }
    }

    pub fn both() -> (r: Self)
        ensures
            r@ == 3,
    {
        TileFlip { bits: 3 }
    }

    /// The raw bits; never more than `0b11`.
    pub fn bits(&self) -> (r: u32)
        ensures
            r == self@,
            r <= 3,
    {
        proof {
            use_type_invariant(self);
        }
        self.bits
    }

    /// The flags with exactly these bits.
    pub closed spec fn spec_with_bits(bits: u32) -> TileFlip {
        TileFlip { bits }
    }

    pub proof fn lemma_with_bits(self, bits: u32)
        ensures
            TileFlip::spec_with_bits(bits)@ == bits,
            TileFlip::spec_with_bits(self@) == self,
    {
    }

    /// The flags with these bits, or `None` where a bit outside `0b11` is set.
    pub fn from_bits(bits: u32) -> (r: Option<Self>)
        ensures
            bits <= 3 <==> r is Some,
            r matches Some(f) ==> f@ == bits && f == TileFlip::spec_with_bits(bits),
    {
        if bits <= 3 {
            Some(TileFlip { bits })
        } else {
            None
        }
    }
}

impl Default for TileFlip {
    fn default() -> (r: Self)
        ensures
            r@ == 0,
    {
        TileFlip { bits: 0 }
    }
}

/// The atlas of a tile that is not animated.
#[derive(Debug, Clone, Copy)]
pub struct TileStaticAtlas {
    pub texture: u32,
    pub atlas: u32,
    pub flip: TileFlip,
}

/// The mask of the atlas bits that an encoded atlas index keeps for the atlas itself.
pub const ATLAS_MASK: u32 = 0x3FFF_FFFF;

impl TileStaticAtlas {
    pub fn new(texture: u32, atlas: u32, flip: TileFlip) -> (r: Self)
        ensures
            r.texture == texture,
            r.atlas == atlas,
            r.flip@ == flip@,
    {
        TileStaticAtlas { texture, atlas, flip }
    }

    /// Packs the flip into the two highest bits of the atlas index.
    pub fn encode(self) -> (r: Self)
        ensures
            r.texture == self.texture,
            r.atlas == encoded_word(self),
            r.flip@ == 0,
    {
        let b = self.flip.bits();
        TileStaticAtlas { texture: self.texture, atlas: self.atlas ^ (b << 30u32), flip: TileFlip::none() }
    }

    /// Unpacks the flip from the two highest bits of the atlas index.
    pub fn decode(self) -> (r: Self)
        ensures
            r.texture == self.texture,
            (r.atlas, r.flip@) == decoded_parts(self.atlas),
    {
        let a = self.atlas;
        let hi = a >> 30u32;
        assert(hi <= 3) by (bit_vector)
            requires
                hi == a >> 30u32,
        ;
        let flip = TileFlip::from_bits(hi).unwrap();
        TileStaticAtlas { texture: self.texture, atlas: self.atlas & ATLAS_MASK, flip }
    }
}

/// The atlas `(texture, atlas)`, not flipped.
impl From<(u32, u32)> for TileStaticAtlas {
    fn from(value: (u32, u32)) -> (r: Self) {
        TileStaticAtlas { texture: value.0, atlas: value.1, flip: TileFlip::none() }
    }
}

impl vstd::std_specs::convert::FromSpecImpl<(u32, u32)> for TileStaticAtlas {
    open spec fn obeys_from_spec() -> bool {
        true
    }

    open spec fn from_spec(v: (u32, u32)) -> TileStaticAtlas {
        TileStaticAtlas { texture: v.0, atlas: v.1, flip: TileFlip::spec_with_bits(0) }
    }
}

impl Default for TileStaticAtlas {
    fn default() -> (r: Self)
        ensures
            r.texture == 0,
            r.atlas == 0,
            r.flip@ == 0,
    {
        TileStaticAtlas { texture: 0, atlas: 0, flip: TileFlip::none() }
    }
}

/// The atlas word of an encoded atlas: the flip packed into the two
/// highest bits.
pub open spec fn encoded_word(a: TileStaticAtlas) -> u32 {
    a.atlas ^ (a.flip@ << 30u32)
}

/// The atlas and the flip that decoding the atlas word `w` unpacks.
pub open spec fn decoded_parts(w: u32) -> (u32, u32) {
    (w & ATLAS_MASK, w >> 30u32)
}

/// Decoding an encoded atlas gives it back, wherever the atlas index leaves
/// the two highest bits free for the flip.
pub proof fn law_decode_encode(a: TileStaticAtlas)
    requires
        a.flip@ <= 3,
        a.atlas <= ATLAS_MASK,
    ensures
        decoded_parts(encoded_word(a)) == (a.atlas, a.flip@),
{
    let f = a.flip@;
    let x = a.atlas;
    assert(((x ^ (f << 30u32)) & 0x3FFF_FFFFu32) == x && ((x ^ (f << 30u32)) >> 30u32) == f)
        by (bit_vector)
        requires
            x <= 0x3FFF_FFFFu32,
            f <= 3u32,
    ;
}

/// An animation registered in [`TilemapAnimations`]: `len` frames whose
/// words start at `start`.
#[derive(Debug, Clone, Copy, PartialEq, Eq, Structural)]
pub struct TileAnimation {
    pub(crate) start: usize,
    pub(crate) len: usize,
}

impl View for TileAnimation {
    type V = (usize, usize);

    /// The start and the frame count.
    closed spec fn view(&self) -> (usize, usize) {
        (self.start, self.len)
    }
}

impl TileAnimation {
    pub closed spec fn spec_new(start: usize, len: usize) -> TileAnimation {
        TileAnimation { start, len }
    }

    pub proof fn lemma_new(self, start: usize, len: usize)
        ensures
            TileAnimation::spec_new(start, len)@ == (start, len),
            TileAnimation::spec_new(self@.0, self@.1) == self,
    {
    }

    /// The animation of `len` frames whose words start at `start`, as a saved
    /// tilemap holds it.
    pub fn new(start: usize, len: usize) -> (r: Self)
        ensures
            r == TileAnimation::spec_new(start, len),
            r@ == (start, len),
    {
        TileAnimation { start, len }
    }

    pub fn start(&self) -> (r: usize)
        ensures
            r == self@.0,
    {
        self.start
    }

    pub fn len(&self) -> (r: usize)
        ensures
            r == self@.1,
    {
        self.len
    }
}

#[derive(Debug, Clone, Copy)]
pub enum TileAtlasIndex {
    Static(TileStaticAtlas),
    Animated { anim: TileAnimation, offset_milisec: u32 },
}

impl Default for TileAtlasIndex {
    fn default() -> (r: Self)
        ensures
            r matches TileAtlasIndex::Static(a) && a.texture == 0 && a.atlas == 0 && a.flip@ == 0,
    {
        TileAtlasIndex::Static(TileStaticAtlas::default())
    }
}

/// A linear RGBA color, each channel held as the bit pattern of an IEEE-754
/// single-precision number. The logic here carries colors and never computes
/// with them.
#[derive(Debug, Clone, Copy, PartialEq, Eq, Structural)]
pub struct ColorBits {
    pub red: u32,
    pub green: u32,
    pub blue: u32,
    pub alpha: u32,
}

/// The bit pattern of `1.0f32`.
pub const ONE_BITS: u32 = 0x3F80_0000;

impl ColorBits {
    /// Opaque white, every channel `1.0`.
    pub fn white() -> (r: Self)
        ensures
            r == (ColorBits { red: ONE_BITS, green: ONE_BITS, blue: ONE_BITS, alpha: ONE_BITS }),
    {
        ColorBits { red: ONE_BITS, green: ONE_BITS, blue: ONE_BITS, alpha: ONE_BITS }
    }
}

impl Default for ColorBits {
    fn default() -> (r: Self)
        ensures
            r == (ColorBits { red: ONE_BITS, green: ONE_BITS, blue: ONE_BITS, alpha: ONE_BITS }),
    {
        ColorBits::white()
    }
}

#[derive(Debug, Default, Clone, Copy, PartialEq, Eq, Structural)]
pub struct ChunkedTileIndex {
    pub chunk_index: IVec3,
    pub in_chunk_index: UVec3,
}

/// The fastest index for looking up tiles: the chunk and the slot in it.
#[derive(Debug, Default, Clone, Copy, PartialEq, Eq, Structural, Hash)]
pub struct FlattenedTileIndex {
    pub chunk_index: IVec3,
    pub in_chunk_index: usize,
}

/// `|v|` for an integer.
pub open spec fn abs(v: int) -> int {
    if v < 0 {
        -v
    } else {
        v
    }
}

/// The slot of a direct index in its chunk, before it is checked to fit.
pub open spec fn direct_slot(index: IVec3, cs: int) -> int {
    abs(trunc_rem(index.x as int, cs)) + abs(trunc_rem(index.y as int, cs)) * cs + abs(
        trunc_rem(index.z as int, cs),
    ) * cs * cs
}

/// Where [`FlattenedTileIndex::from_direct`] can compute without overflow.
pub open spec fn from_direct_ok(index: IVec3, chunk_size: u32) -> bool {
    &&& 0 < chunk_size <= i32::MAX
    &&& direct_slot(index, chunk_size as int) <= i32::MAX
}

/// The flattened form of a direct index: the component-wise truncated
/// quotient by the chunk size, and the remainders' magnitudes laid out in
/// x-major order.
pub open spec fn spec_from_direct(index: IVec3, chunk_size: u32) -> FlattenedTileIndex {
    let cs = chunk_size as int;
    FlattenedTileIndex {
        chunk_index: IVec3 {
            x: trunc_div(index.x as int, cs) as i32,
            y: trunc_div(index.y as int, cs) as i32,
            z: trunc_div(index.z as int, cs) as i32,
        },
        in_chunk_index: direct_slot(index, cs) as usize,
    }
}

/// The slot of a chunked index in its chunk.
pub open spec fn chunked_slot(index: ChunkedTileIndex, cs: int) -> int {
    index.in_chunk_index.x + index.in_chunk_index.y * cs + index.in_chunk_index.z * cs * cs
}

pub open spec fn spec_from_chunked(index: ChunkedTileIndex, chunk_size: u32) -> FlattenedTileIndex {
    FlattenedTileIndex {
        chunk_index: index.chunk_index,
        in_chunk_index: chunked_slot(index, chunk_size as int) as usize,
    }
}

proof fn lemma_nonneg_mul(a: int, b: int)
    requires
        a >= 0,
        b >= 0,
    ensures
        a * b >= 0,
{
    assert(a * b >= 0) by (nonlinear_arith)
        requires
            a >= 0,
            b >= 0,
    ;
}

fn abs_i32(v: i32) -> (r: i32)
    requires
        v > i32::MIN,
    ensures
        r == abs(v as int),
{
    if v < 0 {
        -v
    } else {
        v
    }
}

impl FlattenedTileIndex {
    /// The key under which hash collections file this index.
    pub open spec fn key(self) -> ((i32, i32, i32), usize) {
        (self.chunk_index.key(), self.in_chunk_index)
    }

    pub fn to_key(&self) -> (r: ((i32, i32, i32), usize))
        ensures
            r == self.key(),
    {
        (self.chunk_index.to_key(), self.in_chunk_index)
    }

    pub fn from_direct(index: IVec3, chunk_size: u32) -> (r: Self)
        requires
            from_direct_ok(index, chunk_size),
        ensures
            r == spec_from_direct(index, chunk_size),
    {
        let cs = chunk_size as i32;
        proof {
            lemma_trunc_div_rem(index.x as int, cs as int);
            lemma_trunc_div_rem(index.y as int, cs as int);
            lemma_trunc_div_rem(index.z as int, cs as int);
        }
        let rx = abs_i32(i32_rem(index.x, cs));
        let ry = abs_i32(i32_rem(index.y, cs));
        let rz = abs_i32(i32_rem(index.z, cs));
        proof {
            lemma_nonneg_mul(ry as int, cs as int);
            lemma_nonneg_mul(rz as int, cs as int);
            lemma_nonneg_mul(rz as int * cs, cs as int);
            assert(rz as int * cs <= rz as int * cs * cs) by (nonlinear_arith)
                requires
                    rz >= 0,
                    cs >= 1,
            ;
        }
        let slot = rx + ry * cs + rz * cs * cs;
        FlattenedTileIndex {
            chunk_index: IVec3 {
                x: i32_div(index.x, cs),
                y: i32_div(index.y, cs),
                z: i32_div(index.z, cs),
            },
            in_chunk_index: slot as usize,
        }
    }

    pub fn from_chunked(index: ChunkedTileIndex, chunk_size: u32) -> (r: Self)
        requires
            chunked_slot(index, chunk_size as int) <= u32::MAX,
        ensures
            r == spec_from_chunked(index, chunk_size),
    {
        let x = index.in_chunk_index.x;
        let y = index.in_chunk_index.y;
        let z = index.in_chunk_index.z;
        proof {
            lemma_nonneg_mul(y as int, chunk_size as int);
            lemma_nonneg_mul(z as int, chunk_size as int);
            lemma_nonneg_mul(z as int * chunk_size, chunk_size as int);
            assert(z as int * chunk_size <= z as int * chunk_size * chunk_size) by (nonlinear_arith)
                requires
                    z >= 0,
                    chunk_size >= 0,
            ;
        }
        let slot = x + y * chunk_size + z * chunk_size * chunk_size;
        FlattenedTileIndex { chunk_index: index.chunk_index, in_chunk_index: slot as usize }
    }
}

/// A tile's index on the map together with its flattened form.
#[derive(Debug, Default, Clone, Copy)]
pub struct TileIndex {
    direct: IVec3,
    flattend: FlattenedTileIndex,
}

impl TileIndex {
    pub closed spec fn spec_direct(self) -> IVec3 {
        self.direct
    }

    pub closed spec fn spec_flattend(self) -> FlattenedTileIndex {
        self.flattend
    }

    /// The index with these two parts.
    pub closed spec fn spec_from_parts(direct: IVec3, flattend: FlattenedTileIndex) -> TileIndex {
        TileIndex { direct, flattend }
    }

    pub proof fn lemma_parts(self, direct: IVec3, flattend: FlattenedTileIndex)
        ensures
            TileIndex::spec_from_parts(direct, flattend).spec_direct() == direct,
            TileIndex::spec_from_parts(direct, flattend).spec_flattend() == flattend,
            TileIndex::spec_from_parts(self.spec_direct(), self.spec_flattend()) == self,
    {
    }

    /// The index with these two parts as they are, as a saved tilemap holds them.
    pub fn from_parts(direct: IVec3, flattend: FlattenedTileIndex) -> (r: Self)
        ensures
            r == TileIndex::spec_from_parts(direct, flattend),
            r.spec_direct() == direct,
            r.spec_flattend() == flattend,
    {
        TileIndex { direct, flattend }
    }

    /// The index of the tile at `direct`, whose components must sum to 1 or 2
    /// (the two orientations of triangular tiles).
    pub fn new(direct: IVec3, chunk_size: u32) -> (r: Self)
        requires
            i32::MIN <= direct.x + direct.y <= i32::MAX,
            direct.spec_element_sum() == 1 || direct.spec_element_sum() == 2,
            from_direct_ok(direct, chunk_size),
        ensures
            r.spec_direct() == direct,
            r.spec_flattend() == spec_from_direct(direct, chunk_size),
    {
        let s = direct.element_sum();
        assert(s == 1 || s == 2);
        TileIndex { direct, flattend: FlattenedTileIndex::from_direct(direct, chunk_size) }
    }

    pub fn direct(&self) -> (r: IVec3)
        ensures
            r == self.spec_direct(),
    {
        self.direct
    }

    pub fn flattend(&self) -> (r: FlattenedTileIndex)
        ensures
            r == self.spec_flattend(),
    {
        self.flattend
    }
}

#[derive(Debug, Clone, Copy)]
pub struct Tile {
    pub index: TileIndex,
    pub atlas_index: TileAtlasIndex,
    pub tint: ColorBits,
    pub visible: bool,
}

impl Default for Tile {
    fn default() -> (r: Self)
        ensures
            r.visible,
            r.tint == (ColorBits { red: ONE_BITS, green: ONE_BITS, blue: ONE_BITS, alpha: ONE_BITS }),
            r.index.spec_direct() == (IVec3 { x: 0, y: 0, z: 0 }),
            r.atlas_index matches TileAtlasIndex::Static(a) && a.texture == 0 && a.atlas == 0,
    {
        Tile {
            index: TileIndex {
                direct: IVec3 { x: 0, y: 0, z: 0 },
                flattend: FlattenedTileIndex {
                    chunk_index: IVec3 { x: 0, y: 0, z: 0 },
                    in_chunk_index: 0,
                },
            },
            atlas_index: TileAtlasIndex::default(),
            tint: ColorBits::white(),
            visible: true,
        }
    }
}

impl ChunkableIndex for FlattenedTileIndex {
    open spec fn chunk_of(&self) -> IVec3 {
        self.chunk_index
    }

    open spec fn slot_of(&self) -> usize {
        self.in_chunk_index
    }

    fn in_chunk(&self) -> (r: IVec3) {
        self.chunk_index
    }

    fn in_chunk_at(&self) -> (r: usize) {
        self.in_chunk_index
    }
}

/// The key under which a tile's flattened index is filed.
pub type TileKey = (ChunkKey, usize);

/// A hash set of flattened tile indices, held in `bevy`'s `HashSet`
/// (`hashbrown`'s).
#[verifier::external_body]
pub struct TileKeySet {
    inner: bevy::utils::HashSet<TileKey>,
}

/// What a [`TileKeySet`] holds.
pub uninterp spec fn tile_key_set_contents(s: TileKeySet) -> Set<TileKey>;

impl TileKeySet {
    /// `HashSet::default`: an empty set.
    #[verifier::external_body]
    fn new() -> (r: Self)
        ensures
            tile_key_set_contents(r).is_empty(),
    {
        TileKeySet { inner: Default::default() }
    }

    /// `HashSet::insert`: adds `k`; true where it was not there before.
    #[verifier::external_body]
    fn insert(&mut self, k: TileKey) -> (r: bool)
        ensures
            tile_key_set_contents(*final(self)) == tile_key_set_contents(*old(self)).insert(k),
            r == !tile_key_set_contents(*old(self)).contains(k),
    {
        self.inner.insert(k)
    }

    /// `HashSet::contains`.
    #[verifier::external_body]
    fn contains_key(&self, k: &TileKey) -> (r: bool)
        ensures
            r == tile_key_set_contents(*self).contains(*k),
    {
        self.inner.contains(k)
    }

    /// `HashSet::clear`: removes every element.
    #[verifier::external_body]
    fn clear(&mut self)
        ensures
            tile_key_set_contents(*final(self)).is_empty(),
    {
        self.inner.clear()
    }

    /// `HashSet::iter`, collected: every element once, in the set's own order.
    #[verifier::external_body]
    pub(crate) fn to_vec(&self) -> (r: Vec<TileKey>)
        ensures
            r@.to_set() == tile_key_set_contents(*self),
            r@.no_duplicates(),
    {
        self.inner.iter().copied().collect()
    }

    /// Whether the tile at `index` is in the set.
    pub fn contains(&self, index: &FlattenedTileIndex) -> (r: bool)
        ensures
            r == tile_key_set_contents(*self).contains(index.key()),
    {
        self.contains_key(&index.to_key())
    }
}

/// A hash set of chunk indices, held in `bevy`'s `HashSet` (`hashbrown`'s).
#[verifier::external_body]
pub struct ChunkKeySet {
    inner: bevy::utils::HashSet<ChunkKey>,
}

/// What a [`ChunkKeySet`] holds.
pub uninterp spec fn chunk_key_set_contents(s: ChunkKeySet) -> Set<ChunkKey>;

impl ChunkKeySet {
    /// `HashSet::default`: an empty set.
    #[verifier::external_body]
    fn new() -> (r: Self)
        ensures
            chunk_key_set_contents(r).is_empty(),
    {
        ChunkKeySet { inner: Default::default() }
    }

    /// `HashSet::insert`: adds `k`; true where it was not there before.
    #[verifier::external_body]
    fn insert(&mut self, k: ChunkKey) -> (r: bool)
        ensures
            chunk_key_set_contents(*final(self)) == chunk_key_set_contents(*old(self)).insert(k),
            r == !chunk_key_set_contents(*old(self)).contains(k),
    {
        self.inner.insert(k)
    }

    /// `HashSet::contains`.
    #[verifier::external_body]
    fn contains_key(&self, k: &ChunkKey) -> (r: bool)
        ensures
            r == chunk_key_set_contents(*self).contains(*k),
    {
        self.inner.contains(k)
    }

    /// `HashSet::iter`, collected: every element once, in the set's own order.
    #[verifier::external_body]
    pub(crate) fn to_vec(&self) -> (r: Vec<ChunkKey>)
        ensures
            r@.to_set() == chunk_key_set_contents(*self),
            r@.no_duplicates(),
    {
        self.inner.iter().copied().collect()
    }

    /// `HashSet::clear`: removes every element.
    #[verifier::external_body]
    fn clear(&mut self)
        ensures
            chunk_key_set_contents(*final(self)).is_empty(),
    {
        self.inner.clear()
    }

    /// Whether the chunk at `index` is in the set.
    pub fn contains(&self, index: &IVec3) -> (r: bool)
        ensures
            r == chunk_key_set_contents(*self).contains(index.key()),
    {
        self.contains_key(&index.to_key())
    }
}

/// The tiles of a tilemap, with the tiles and chunks changed since the
/// changes were last cleared.
pub struct TilemapStorage {
    internal: ChunkedStorage,
    changed_tiles: TileKeySet,
    changed_chunks: ChunkKeySet,
}

impl TilemapStorage {
    pub closed spec fn spec_chunk_size(&self) -> u32 {
        self.internal.spec_chunk_size()
    }

    /// The chunks, each as its sequence of slots.
    pub closed spec fn chunks(&self) -> Map<ChunkKey, Seq<Option<Tile>>> {
        self.internal.chunks()
    }

    /// The tiles that were read mutably, set or removed since the changes were cleared.
    pub closed spec fn spec_changed_tiles(&self) -> Set<TileKey> {
        tile_key_set_contents(self.changed_tiles)
    }

    /// The chunks that were read mutably, set, removed or cleared since the changes were cleared.
    pub closed spec fn spec_changed_chunks(&self) -> Set<ChunkKey> {
        chunk_key_set_contents(self.changed_chunks)
    }

    /// What the slot that `index` names holds.
    pub open spec fn tile_at(&self, index: FlattenedTileIndex) -> Option<Tile> {
        map_slot(self.chunks(), index.chunk_index.key(), index.in_chunk_index as int)
    }

    /// The slot that `index` names lies inside its chunk, where the chunk exists.
    pub open spec fn in_bounds(&self, index: FlattenedTileIndex) -> bool {
        self.chunks().contains_key(index.chunk_index.key()) ==> index.in_chunk_index
            < self.chunks()[index.chunk_index.key()].len()
    }

    pub fn new(chunk_size: u32) -> (r: Self)
        ensures
            r.spec_chunk_size() == chunk_size,
            r.chunks() == Map::<ChunkKey, Seq<Option<Tile>>>::empty(),
            r.spec_changed_tiles().is_empty(),
            r.spec_changed_chunks().is_empty(),
    {
        TilemapStorage {
            internal: ChunkedStorage::new(chunk_size),
            changed_chunks: ChunkKeySet::new(),
            changed_tiles: TileKeySet::new(),
        }
    }

    pub fn chunk_size(&self) -> (r: u32)
        ensures
            r == self.spec_chunk_size(),
    {
        self.internal.chunk_size()
    }

    /// The storage that holds the chunks of `internal`, with no change recorded.
    pub fn from_storage(internal: ChunkedStorage) -> (r: Self)
        ensures
            r.spec_chunk_size() == internal.spec_chunk_size(),
            r.chunks() == internal.chunks(),
            r.spec_changed_tiles().is_empty(),
            r.spec_changed_chunks().is_empty(),
    {
        TilemapStorage { internal, changed_chunks: ChunkKeySet::new(), changed_tiles: TileKeySet::new() }
    }

    /// The keys of all chunks, each once.
    pub fn chunk_keys(&self) -> (r: Vec<ChunkKey>)
        ensures
            r@.to_set() == self.chunks().dom(),
            r@.no_duplicates(),
    {
        self.internal.keys()
    }

    pub fn changed_tiles(&self) -> (r: &TileKeySet)
        ensures
            tile_key_set_contents(*r) == self.spec_changed_tiles(),
    {
        &self.changed_tiles
    }

    pub fn changed_chunks(&self) -> (r: &ChunkKeySet)
        ensures
            chunk_key_set_contents(*r) == self.spec_changed_chunks(),
    {
        &self.changed_chunks
    }

    /// Forgets every recorded change.
    pub fn clear_changes(&mut self)
        ensures
            final(self).spec_chunk_size() == old(self).spec_chunk_size(),
            final(self).chunks() == old(self).chunks(),
            final(self).spec_changed_tiles().is_empty(),
            final(self).spec_changed_chunks().is_empty(),
    {
        self.changed_tiles.clear();
        self.changed_chunks.clear();
    }

    /// The tile at the direct index `index`.
    pub fn get(&self, index: IVec3) -> (r: Option<&Tile>)
        requires
            from_direct_ok(index, self.spec_chunk_size()),
            self.in_bounds(spec_from_direct(index, self.spec_chunk_size())),
        ensures
            match r {
                Some(t) => self.tile_at(spec_from_direct(index, self.spec_chunk_size())) == Some(*t),
                None => self.tile_at(spec_from_direct(index, self.spec_chunk_size())) is None,
            },
    {
        self.flattened_get(FlattenedTileIndex::from_direct(index, self.chunk_size()))
    }

    /// The tile at the chunked index `index`.
    pub fn chunked_get(&self, index: ChunkedTileIndex) -> (r: Option<&Tile>)
        requires
            chunked_slot(index, self.spec_chunk_size() as int) <= u32::MAX,
            self.in_bounds(spec_from_chunked(index, self.spec_chunk_size())),
        ensures
            match r {
                Some(t) => self.tile_at(spec_from_chunked(index, self.spec_chunk_size())) == Some(*t),
                None => self.tile_at(spec_from_chunked(index, self.spec_chunk_size())) is None,
            },
    {
        self.flattened_get(FlattenedTileIndex::from_chunked(index, self.chunk_size()))
    }

    /// The tile at the flattened index `index`.
    pub fn flattened_get(&self, index: FlattenedTileIndex) -> (r: Option<&Tile>)
        requires
            self.in_bounds(index),
        ensures
            match r {
                Some(t) => self.tile_at(index) == Some(*t),
                None => self.tile_at(index) is None,
            },
    {
        self.internal.get(&index)
    }

    /// A mutable reference to the tile at the direct index `index`, if any; the tile is recorded as changed either way.
    pub fn get_mut(&mut self, index: IVec3) -> (r: Option<&mut Tile>)
        requires
            from_direct_ok(index, old(self).spec_chunk_size()),
            old(self).in_bounds(spec_from_direct(index, old(self).spec_chunk_size())),
        ensures
            final(self).spec_chunk_size() == old(self).spec_chunk_size(),
            final(self).spec_changed_tiles() == old(self).spec_changed_tiles().insert(spec_from_direct(index, old(self).spec_chunk_size()).key()),
            final(self).spec_changed_chunks() == old(self).spec_changed_chunks(),
            forall|k2: ChunkKey|
                #[trigger] final(self).chunks().contains_key(k2) == old(self).chunks().contains_key(k2),
            forall|k2: ChunkKey|
                k2 != spec_from_direct(index, old(self).spec_chunk_size()).chunk_index.key() && old(self).chunks().contains_key(k2)
                    ==> #[trigger] final(self).chunks()[k2] == old(self).chunks()[k2],
            match old(self).tile_at(spec_from_direct(index, old(self).spec_chunk_size())) {
                Some(t) => {
                    &&& r is Some
                    &&& *r.unwrap() == t
                    &&& final(self).chunks()[spec_from_direct(index, old(self).spec_chunk_size()).chunk_index.key()] == old(self).chunks()[spec_from_direct(index, old(self).spec_chunk_size()).chunk_index.key()].update(
                        spec_from_direct(index, old(self).spec_chunk_size()).in_chunk_index as int,
                        Some(*final(r.unwrap())),
                    )
                },
                None => {
                    &&& r is None
                    &&& old(self).chunks().contains_key(spec_from_direct(index, old(self).spec_chunk_size()).chunk_index.key()) ==> final(self).chunks()[spec_from_direct(index, old(self).spec_chunk_size()).chunk_index.key()]
                        == old(self).chunks()[spec_from_direct(index, old(self).spec_chunk_size()).chunk_index.key()]
                },
            },
    {
        let f = FlattenedTileIndex::from_direct(index, self.chunk_size());
        self.flattened_get_mut(f)
    }

    /// A mutable reference to the tile at the chunked index `index`, if any; the tile is recorded as changed either way.
    pub fn chunked_get_mut(&mut self, index: ChunkedTileIndex) -> (r: Option<&mut Tile>)
        requires
            chunked_slot(index, old(self).spec_chunk_size() as int) <= u32::MAX,
            old(self).in_bounds(spec_from_chunked(index, old(self).spec_chunk_size())),
        ensures
            final(self).spec_chunk_size() == old(self).spec_chunk_size(),
            final(self).spec_changed_tiles() == old(self).spec_changed_tiles().insert(spec_from_chunked(index, old(self).spec_chunk_size()).key()),
            final(self).spec_changed_chunks() == old(self).spec_changed_chunks(),
            forall|k2: ChunkKey|
                #[trigger] final(self).chunks().contains_key(k2) == old(self).chunks().contains_key(k2),
            forall|k2: ChunkKey|
                k2 != spec_from_chunked(index, old(self).spec_chunk_size()).chunk_index.key() && old(self).chunks().contains_key(k2)
                    ==> #[trigger] final(self).chunks()[k2] == old(self).chunks()[k2],
            match old(self).tile_at(spec_from_chunked(index, old(self).spec_chunk_size())) {
                Some(t) => {
                    &&& r is Some
                    &&& *r.unwrap() == t
                    &&& final(self).chunks()[spec_from_chunked(index, old(self).spec_chunk_size()).chunk_index.key()] == old(self).chunks()[spec_from_chunked(index, old(self).spec_chunk_size()).chunk_index.key()].update(
                        spec_from_chunked(index, old(self).spec_chunk_size()).in_chunk_index as int,
                        Some(*final(r.unwrap())),
                    )
                },
                None => {
                    &&& r is None
                    &&& old(self).chunks().contains_key(spec_from_chunked(index, old(self).spec_chunk_size()).chunk_index.key()) ==> final(self).chunks()[spec_from_chunked(index, old(self).spec_chunk_size()).chunk_index.key()]
                        == old(self).chunks()[spec_from_chunked(index, old(self).spec_chunk_size()).chunk_index.key()]
                },
            },
    {
        let f = FlattenedTileIndex::from_chunked(index, self.chunk_size());
        self.flattened_get_mut(f)
    }

    /// A mutable reference to the tile at the flattened index `index`, if the
    /// slot holds one; the tile is recorded as changed either way.
    pub fn flattened_get_mut(&mut self, index: FlattenedTileIndex) -> (r: Option<&mut Tile>)
        requires
            old(self).in_bounds(index),
        ensures
            final(self).spec_chunk_size() == old(self).spec_chunk_size(),
            final(self).spec_changed_tiles() == old(self).spec_changed_tiles().insert(index.key()),
            final(self).spec_changed_chunks() == old(self).spec_changed_chunks(),
            forall|k2: ChunkKey|
                #[trigger] final(self).chunks().contains_key(k2) == old(self).chunks().contains_key(k2),
            forall|k2: ChunkKey|
                k2 != index.chunk_index.key() && old(self).chunks().contains_key(k2)
                    ==> #[trigger] final(self).chunks()[k2] == old(self).chunks()[k2],
            match old(self).tile_at(index) {
                Some(t) => {
                    &&& r is Some
                    &&& *r.unwrap() == t
                    &&& final(self).chunks()[index.chunk_index.key()] == old(self).chunks()[index.chunk_index.key()].update(
                        index.in_chunk_index as int,
                        Some(*final(r.unwrap())),
                    )
                },
                None => {
                    &&& r is None
                    &&& old(self).chunks().contains_key(index.chunk_index.key()) ==> final(self).chunks()[index.chunk_index.key()]
                        == old(self).chunks()[index.chunk_index.key()]
                },
            },
    {
        self.changed_tiles.insert(index.to_key());
        self.internal.get_mut(&index)
    }

    /// A mutable reference to the chunk at `index`, if any; the chunk is
    /// recorded as changed either way.
    pub fn get_chunk_mut(&mut self, index: IVec3) -> (r: Option<&mut Chunk<Tile>>)
        ensures
            final(self).spec_chunk_size() == old(self).spec_chunk_size(),
            final(self).spec_changed_chunks() == old(self).spec_changed_chunks().insert(index.key()),
            final(self).spec_changed_tiles() == old(self).spec_changed_tiles(),
            forall|k2: ChunkKey|
                #[trigger] final(self).chunks().contains_key(k2) == old(self).chunks().contains_key(k2),
            forall|k2: ChunkKey|
                k2 != index.key() && old(self).chunks().contains_key(k2)
                    ==> #[trigger] final(self).chunks()[k2] == old(self).chunks()[k2],
            old(self).chunks().contains_key(index.key()) ==> {
                &&& r is Some
                &&& r.unwrap()@ == old(self).chunks()[index.key()]
                &&& final(self).chunks()[index.key()] == final(r.unwrap())@
            },
            !old(self).chunks().contains_key(index.key()) ==> r is None,
    {
        self.changed_chunks.insert(index.to_key());
        self.internal.get_chunk_mut(&index)
    }

    /// Puts `tile` at its own flattened index, records the tile as changed,
    /// and hands back the tile that was there.
    pub fn set(&mut self, tile: Tile) -> (r: Option<Tile>)
        requires
            old(self).chunks().contains_key(tile.index.spec_flattend().chunk_index.key())
                ==> tile.index.spec_flattend().in_chunk_index < old(self).chunks()[tile.index.spec_flattend().chunk_index.key()].len(),
            !old(self).chunks().contains_key(tile.index.spec_flattend().chunk_index.key()) ==> {
                &&& cube(old(self).spec_chunk_size()) <= u32::MAX
                &&& tile.index.spec_flattend().in_chunk_index < cube(old(self).spec_chunk_size())
            },
        ensures
            final(self).spec_chunk_size() == old(self).spec_chunk_size(),
            r == old(self).tile_at(tile.index.spec_flattend()),
            final(self).chunks() == set_chunks(
                old(self).chunks(),
                old(self).spec_chunk_size(),
                tile.index.spec_flattend().chunk_index.key(),
                tile.index.spec_flattend().in_chunk_index as int,
                tile,
            ),
            final(self).spec_changed_tiles() == old(self).spec_changed_tiles().insert(
                tile.index.spec_flattend().key(),
            ),
            final(self).spec_changed_chunks() == old(self).spec_changed_chunks(),
    {
        let f = tile.index.flattend();
        self.changed_tiles.insert(f.to_key());
        self.internal.set(f, tile)
    }

    /// Empties the slot at the direct index `index`, records the tile as
    /// changed, and hands back what it held.
    pub fn remove(&mut self, index: IVec3) -> (r: Option<Tile>)
        requires
            from_direct_ok(index, old(self).spec_chunk_size()),
            old(self).in_bounds(spec_from_direct(index, old(self).spec_chunk_size())),
        ensures
            final(self).spec_chunk_size() == old(self).spec_chunk_size(),
            r == old(self).tile_at(spec_from_direct(index, old(self).spec_chunk_size())),
            final(self).chunks() == remove_chunks(
                old(self).chunks(),
                spec_from_direct(index, old(self).spec_chunk_size()).chunk_index.key(),
                spec_from_direct(index, old(self).spec_chunk_size()).in_chunk_index as int,
            ),
            final(self).spec_changed_tiles() == old(self).spec_changed_tiles().insert(
                spec_from_direct(index, old(self).spec_chunk_size()).key(),
            ),
            final(self).spec_changed_chunks() == old(self).spec_changed_chunks(),
    {
        let f = FlattenedTileIndex::from_direct(index, self.chunk_size());
        self.flattened_remove(f)
    }

    /// Empties the slot at the chunked index `index`, records the tile as
    /// changed, and hands back what it held.
    pub fn chunked_remove(&mut self, index: ChunkedTileIndex) -> (r: Option<Tile>)
        requires
            chunked_slot(index, old(self).spec_chunk_size() as int) <= u32::MAX,
            old(self).in_bounds(spec_from_chunked(index, old(self).spec_chunk_size())),
        ensures
            final(self).spec_chunk_size() == old(self).spec_chunk_size(),
            r == old(self).tile_at(spec_from_chunked(index, old(self).spec_chunk_size())),
            final(self).chunks() == remove_chunks(
                old(self).chunks(),
                index.chunk_index.key(),
                chunked_slot(index, old(self).spec_chunk_size() as int),
            ),
            final(self).spec_changed_tiles() == old(self).spec_changed_tiles().insert(
                spec_from_chunked(index, old(self).spec_chunk_size()).key(),
            ),
            final(self).spec_changed_chunks() == old(self).spec_changed_chunks(),
    {
        let f = FlattenedTileIndex::from_chunked(index, self.chunk_size());
        self.flattened_remove(f)
    }

    /// Empties the slot at the flattened index `index`, records the tile as
    /// changed, and hands back what it held.
    pub fn flattened_remove(&mut self, index: FlattenedTileIndex) -> (r: Option<Tile>)
        requires
            old(self).in_bounds(index),
        ensures
            final(self).spec_chunk_size() == old(self).spec_chunk_size(),
            r == old(self).tile_at(index),
            final(self).chunks() == remove_chunks(
                old(self).chunks(),
                index.chunk_index.key(),
                index.in_chunk_index as int,
            ),
            final(self).spec_changed_tiles() == old(self).spec_changed_tiles().insert(index.key()),
            final(self).spec_changed_chunks() == old(self).spec_changed_chunks(),
    {
        self.changed_tiles.insert(index.to_key());
        self.internal.remove(&index)
    }

    /// The chunk at `index`.
    pub fn get_chunk(&self, index: IVec3) -> (r: Option<&Chunk<Tile>>)
        ensures
            match r {
                Some(c) => self.chunks().contains_key(index.key()) && c@ == self.chunks()[index.key()],
                None => !self.chunks().contains_key(index.key()),
            },
    {
        self.internal.get_chunk(&index)
    }

    /// Puts `chunk` at `index`, records the chunk as changed, and hands back
    /// the chunk that was there.
    pub fn set_chunk(&mut self, index: IVec3, chunk: Chunk<Tile>) -> (r: Option<Chunk<Tile>>)
        ensures
            final(self).spec_chunk_size() == old(self).spec_chunk_size(),
            final(self).chunks() == old(self).chunks().insert(index.key(), chunk@),
            match r {
                Some(c) => old(self).chunks().contains_key(index.key()) && c@ == old(self).chunks()[index.key()],
                None => !old(self).chunks().contains_key(index.key()),
            },
            final(self).spec_changed_chunks() == old(self).spec_changed_chunks().insert(index.key()),
            final(self).spec_changed_tiles() == old(self).spec_changed_tiles(),
    {
        self.changed_chunks.insert(index.to_key());
        self.internal.set_chunk(&index, chunk)
    }

    /// Takes the chunk at `index` out and records it as changed.
    pub fn remove_chunk(&mut self, index: IVec3) -> (r: Option<Chunk<Tile>>)
        ensures
            final(self).spec_chunk_size() == old(self).spec_chunk_size(),
            final(self).chunks() == old(self).chunks().remove(index.key()),
            match r {
                Some(c) => old(self).chunks().contains_key(index.key()) && c@ == old(self).chunks()[index.key()],
                None => !old(self).chunks().contains_key(index.key()),
            },
            final(self).spec_changed_chunks() == old(self).spec_changed_chunks().insert(index.key()),
            final(self).spec_changed_tiles() == old(self).spec_changed_tiles(),
    {
        self.changed_chunks.insert(index.to_key());
        self.internal.remove_chunk(&index)
    }

    /// Removes every chunk, recording each of them as changed.
    pub fn clear(&mut self)
        ensures
            final(self).spec_chunk_size() == old(self).spec_chunk_size(),
            final(self).chunks() == Map::<ChunkKey, Seq<Option<Tile>>>::empty(),
            final(self).spec_changed_chunks() == old(self).spec_changed_chunks().union(
                old(self).chunks().dom(),
            ),
            final(self).spec_changed_tiles() == old(self).spec_changed_tiles(),
    {
        let keys = self.internal.keys();
        let mut i: usize = 0;
        while i < keys.len()
            invariant
                i <= keys.len(),
                keys@.to_set() == old(self).chunks().dom(),
                self.internal == old(self).internal,
                self.changed_tiles == old(self).changed_tiles,
                chunk_key_set_contents(self.changed_chunks) == old(self).spec_changed_chunks().union(
                    keys@.take(i as int).to_set(),
                ),
            decreases keys.len() - i,
        {
            let ghost before = chunk_key_set_contents(self.changed_chunks);
            self.changed_chunks.insert(keys[i]);
            proof {
                assert(keys@.take(i + 1) == keys@.take(i as int).push(keys@[i as int]));
                keys@.take(i as int).lemma_push_to_set_commute(keys@[i as int]);
                assert(chunk_key_set_contents(self.changed_chunks) =~= old(self).spec_changed_chunks().union(
                    keys@.take((i + 1) as int).to_set(),
                ));
            }
            i = i + 1;
        }
        proof {
            assert(keys@.take(keys@.len() as int) == keys@);
        }
        self.internal.clear();
    }
}

impl Default for TilemapStorage {
    fn default() -> (r: Self)
        ensures
            r.spec_chunk_size() == DEFAULT_CHUNK_SIZE,
            r.chunks() == Map::<ChunkKey, Seq<Option<Tile>>>::empty(),
            r.spec_changed_tiles().is_empty(),
            r.spec_changed_chunks().is_empty(),
    {
        TilemapStorage::new(DEFAULT_CHUNK_SIZE)
    }
}

/// A tile that is set can be read back at its flattened index; every other
/// slot reads as before, and the tile is recorded as changed.
pub proof fn law_get_after_set(a: TilemapStorage, b: TilemapStorage, tile: Tile, other: FlattenedTileIndex)
    requires
        a.chunks().contains_key(tile.index.spec_flattend().chunk_index.key())
            ==> tile.index.spec_flattend().in_chunk_index < a.chunks()[tile.index.spec_flattend().chunk_index.key()].len(),
        !a.chunks().contains_key(tile.index.spec_flattend().chunk_index.key())
            ==> tile.index.spec_flattend().in_chunk_index < cube(a.spec_chunk_size()),
        b.chunks() == set_chunks(
            a.chunks(),
            a.spec_chunk_size(),
            tile.index.spec_flattend().chunk_index.key(),
            tile.index.spec_flattend().in_chunk_index as int,
            tile,
        ),
    ensures
        b.tile_at(tile.index.spec_flattend()) == Some(tile),
        other.key() != tile.index.spec_flattend().key() ==> b.tile_at(other) == a.tile_at(other),
{
    let f = tile.index.spec_flattend();
    crate::map::storage::law_slot_after_set(
        a.chunks(),
        a.spec_chunk_size(),
        f.chunk_index.key(),
        f.in_chunk_index as int,
        tile,
        other.chunk_index.key(),
        other.in_chunk_index as int,
    );
}

/// A tile made with [`TileIndex::new`] and set into a storage of the same
/// chunk size is found again by [`TilemapStorage::get`] at its direct index.
pub proof fn law_get_direct_after_set(a: TilemapStorage, b: TilemapStorage, tile: Tile, chunk_size: u32)
    requires
        from_direct_ok(tile.index.spec_direct(), chunk_size),
        tile.index.spec_flattend() == spec_from_direct(tile.index.spec_direct(), chunk_size),
        a.spec_chunk_size() == chunk_size,
        a.chunks().contains_key(tile.index.spec_flattend().chunk_index.key())
            ==> tile.index.spec_flattend().in_chunk_index < a.chunks()[tile.index.spec_flattend().chunk_index.key()].len(),
        !a.chunks().contains_key(tile.index.spec_flattend().chunk_index.key())
            ==> tile.index.spec_flattend().in_chunk_index < cube(a.spec_chunk_size()),
        b.chunks() == set_chunks(
            a.chunks(),
            a.spec_chunk_size(),
            tile.index.spec_flattend().chunk_index.key(),
            tile.index.spec_flattend().in_chunk_index as int,
            tile,
        ),
    ensures
        b.tile_at(spec_from_direct(tile.index.spec_direct(), chunk_size)) == Some(tile),
{
    law_get_after_set(a, b, tile, tile.index.spec_flattend());
}

/// A removed tile reads as absent; every other slot reads as before.
pub proof fn law_get_after_remove(a: TilemapStorage, b: TilemapStorage, index: FlattenedTileIndex, other: FlattenedTileIndex)
    requires
        a.in_bounds(index),
        b.chunks() == remove_chunks(a.chunks(), index.chunk_index.key(), index.in_chunk_index as int),
    ensures
        b.tile_at(index) is None,
        other.key() != index.key() ==> b.tile_at(other) == a.tile_at(other),
{
    crate::map::storage::law_slot_after_remove(
        a.chunks(),
        index.chunk_index.key(),
        index.in_chunk_index as int,
        other.chunk_index.key(),
        other.in_chunk_index as int,
    );
}

/// The rendered size of a single tile, each component held as the bit
/// pattern of an IEEE-754 single-precision number.
#[derive(Debug, Default, Clone, Copy, PartialEq, Eq, Structural)]
pub struct TileRenderSize {
    pub x: u32,
    pub y: u32,
}

/// The tint of a whole tilemap.
#[derive(Debug, Default, Clone, Copy)]
pub struct TilemapTint(pub ColorBits);

#[derive(Debug, Default, Clone, Copy, PartialEq, Eq, Structural)]
pub enum FilterMode {
    #[default]
    Nearest,
    Linear,
}

#[derive(Debug, Default, Clone, Copy, PartialEq, Eq, Structural)]
pub struct TilemapTextureDescriptor {
    pub size: UVec2,
    pub tile_size: UVec2,
}

/// A texture of a tileset: the asset path it is loaded from and its layout.
#[derive(Debug, Default, Clone)]
pub struct TilemapTexture {
    pub handle: String,
    pub desc: TilemapTextureDescriptor,
}

/// The component-wise maximum of the texture sizes, starting from zero.
pub open spec fn max_texture_size(textures: Seq<TilemapTexture>) -> UVec2
    decreases textures.len(),
{
    if textures.len() == 0 {
        UVec2 { x: 0, y: 0 }
    } else {
        let m = max_texture_size(textures.drop_last());
        let s = textures.last().desc.size;
        UVec2 {
            x: if m.x >= s.x { m.x } else { s.x },
            y: if m.y >= s.y { m.y } else { s.y },
        }
    }
}

/// A texture's tile size is nonzero and divides its size.
pub open spec fn texture_layout_ok(t: TilemapTexture) -> bool {
    &&& t.desc.tile_size.x > 0
    &&& t.desc.tile_size.y > 0
    &&& t.desc.size.x % t.desc.tile_size.x == 0
    &&& t.desc.size.y % t.desc.tile_size.y == 0
}

/// The textures of a tilemap, stacked into layers of a size that fits them all.
#[derive(Debug, Default, Clone)]
pub struct TilemapTilesets {
    size: UVec2,
    filter_mode: FilterMode,
    textures: Vec<TilemapTexture>,
}

impl TilemapTilesets {
    pub closed spec fn spec_size(&self) -> UVec2 {
        self.size
    }

    pub closed spec fn spec_filter_mode(&self) -> FilterMode {
        self.filter_mode
    }

    pub closed spec fn spec_textures(&self) -> Seq<TilemapTexture> {
        self.textures@
    }

    /// Tilesets of `textures`; there must be at least one, and each tile
    /// size must be nonzero and divide its texture's size.
    pub fn new(textures: Vec<TilemapTexture>, filter_mode: FilterMode) -> (r: Self)
        requires
            textures.len() != 0,
            forall|i: int| 0 <= i < textures.len() ==> texture_layout_ok(#[trigger] textures@[i]),
        ensures
            r.spec_size() == max_texture_size(textures@),
            r.spec_filter_mode() == filter_mode,
            r.spec_textures() == textures@,
    {
        let mut size = UVec2 { x: 0, y: 0 };
        let mut i: usize = 0;
        while i < textures.len()
            invariant
                i <= textures.len(),
                forall|j: int| 0 <= j < textures.len() ==> texture_layout_ok(#[trigger] textures@[j]),
                size == max_texture_size(textures@.take(i as int)),
            decreases textures.len() - i,
        {
            let t = &textures[i];
            assert(texture_layout_ok(textures@[i as int]));
            let _check_x = t.desc.size.x % t.desc.tile_size.x;
            let _check_y = t.desc.size.y % t.desc.tile_size.y;
            let sx = t.desc.size.x;
            let sy = t.desc.size.y;
            size = UVec2 {
                x: if size.x >= sx { size.x } else { sx },
                y: if size.y >= sy { size.y } else { sy },
            };
            proof {
                assert(textures@.take(i + 1).drop_last() =~= textures@.take(i as int));
            }
            i = i + 1;
        }
        proof {
            assert(textures@.take(textures@.len() as int) =~= textures@);
        }
        TilemapTilesets { size, textures, filter_mode }
    }

    /// Tilesets with the given parts as they are, as a saved tilemap holds them.
    pub fn from_parts(size: UVec2, filter_mode: FilterMode, textures: Vec<TilemapTexture>) -> (r: Self)
        ensures
            r.spec_size() == size,
            r.spec_filter_mode() == filter_mode,
            r.spec_textures() == textures@,
    {
        TilemapTilesets { size, filter_mode, textures }
    }

    pub fn size(&self) -> (r: UVec2)
        ensures
            r == self.spec_size(),
    {
        self.size
    }

    pub fn textures(&self) -> (r: &Vec<TilemapTexture>)
        ensures
            r@ == self.spec_textures(),
    {
        &self.textures
    }

    pub fn filter_mode(&self) -> (r: FilterMode)
        ensures
            r == self.spec_filter_mode(),
    {
        self.filter_mode
    }
}

/// The words that the frames of an animation occupy: for each frame, its
/// texture and its atlas index with the flip packed in.
pub open spec fn frame_words(frames: Seq<TileStaticAtlas>) -> Seq<u32> {
    Seq::new(
        2 * frames.len(),
        |i: int|
            if i % 2 == 0 {
                frames[i / 2].texture
            } else {
                frames[i / 2].atlas ^ (frames[i / 2].flip@ << 30u32)
            },
    )
}

/// The animations of a tilemap, in one buffer of words laid out as
/// `[fps, frame_1_tex, frame_1_atl, frame_2_tex, frame_2_atl, fps, ...]`.
#[derive(Debug, Clone)]
pub struct TilemapAnimations(Vec<u32>);

impl View for TilemapAnimations {
    type V = Seq<u32>;

    closed spec fn view(&self) -> Seq<u32> {
        self.0@
    }
}

impl Default for TilemapAnimations {
    /// One dummy word, so that the buffer is never empty.
    fn default() -> (r: Self)
        ensures
            r@ == seq![0u32],
    {
        let mut v: Vec<u32> = Vec::new();
        v.push(0);
        TilemapAnimations(v)
    }
}

impl TilemapAnimations {
    /// The animations held in `words`, as a saved tilemap holds them.
    pub fn from_words(words: Vec<u32>) -> (r: Self)
        ensures
            r@ == words@,
    {
        TilemapAnimations(words)
    }

    pub fn bytes(&self) -> (r: &Vec<u32>)
        ensures
            r@ == self@,
    {
        &self.0
    }

    /// Appends an animation of `frames` played at `fps`; the result names
    /// where its frames start and how many there are.
    pub fn register(&mut self, frames: Vec<TileStaticAtlas>, fps: u32) -> (r: TileAnimation)
        ensures
            final(self)@ == old(self)@.push(fps) + frame_words(frames@),
            r@ == ((old(self)@.len() + 1) as usize, frames@.len() as usize),
    {
        self.0.push(fps);
        let anim = TileAnimation { start: self.0.len(), len: frames.len() };
        let ghost base = self.0@;
        let mut i: usize = 0;
        while i < frames.len()
            invariant
                i <= frames.len(),
                base == old(self)@.push(fps),
                self.0@ == base + frame_words(frames@.take(i as int)),
            decreases frames.len() - i,
        {
            let e = frames[i].encode();
            self.0.push(e.texture);
            self.0.push(e.atlas);
            proof {
                assert(frame_words(frames@.take(i + 1)) =~= frame_words(frames@.take(i as int)).push(
                    e.texture,
                ).push(e.atlas));
                assert(self.0@ =~= base + frame_words(frames@.take(i + 1)));
            }
            i = i + 1;
        }
        proof {
            assert(frames@.take(frames@.len() as int) =~= frames@);
        }
        anim
    }
}

} // verus!
