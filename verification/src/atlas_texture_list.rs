//! The table of the backing textures of one kind: slots that hold a texture
//! or are free, and the list of the free ones.

use crate::atlas_texture::{TextureModel, WgpuAtlasTexture};
use crate::atlas_types::{AtlasTextureId, AtlasTextureKind, AtlasTile};
use crate::geometry::{Bounds, Size};
use crate::shelf_layout::placement;
use vstd::prelude::*;

verus! {

/// The width and height of a backing texture that no tile forces to be larger.
pub const DEFAULT_ATLAS_SIZE: u32 = 1024;

/// `base` doubled until it is at least `min`.
pub open spec fn doubled_to(base: int, min: int) -> int
    decreases (if base < min { min - base } else { 0 }),
{
    if base <= 0 || base >= min {
        base
    } else {
        doubled_to(2 * base, min)
    }
}

/// The width (or height) of a new backing texture that must hold `min`
/// pixels: the default size doubled until it is enough, but no more than
/// `limit`.
pub open spec fn texture_extent(min: u32, limit: u32) -> u32 {
    let grown = doubled_to(DEFAULT_ATLAS_SIZE as int, min as int);
    if grown <= limit {
        grown as u32
    } else {
        limit
    }
}

/// The size of a new backing texture that must hold a tile of size `min_size`.
pub open spec fn texture_size_for(min_size: Size, limit: u32) -> Size {
    Size {
        width: texture_extent(min_size.width, limit),
        height: texture_extent(min_size.height, limit),
    }
}

/// Doubling reaches the minimum, and stops at the first value that does.
pub proof fn lemma_doubled_to(base: int, min: int)
    requires
        0 < base,
    ensures
        doubled_to(base, min) >= min,
        doubled_to(base, min) >= base,
        doubled_to(base, min) == base || doubled_to(base, min) < 2 * min,
    decreases (if base < min { min - base } else { 0 }),
{
    if base < min {
        lemma_doubled_to(2 * base, min);
    }
}

/// A new texture is large enough for the tile it is made for, and within the limit.
pub proof fn lemma_texture_size_for(min_size: Size, limit: u32)
    requires
        min_size.width <= limit,
        min_size.height <= limit,
    ensures
        min_size.fits_in(texture_size_for(min_size, limit)),
        texture_size_for(min_size, limit).width <= limit,
        texture_size_for(min_size, limit).height <= limit,
{
    lemma_doubled_to(DEFAULT_ATLAS_SIZE as int, min_size.width as int);
    lemma_doubled_to(DEFAULT_ATLAS_SIZE as int, min_size.height as int);
}

/// The width (or height) of a new backing texture that must hold `min` pixels.
pub fn grow_extent(min: u32, limit: u32) -> (r: u32)
    ensures
        r == texture_extent(min, limit),
        min <= limit ==> min <= r <= limit,
{
    let mut grown: u64 = DEFAULT_ATLAS_SIZE as u64;
    while grown < min as u64
        invariant
            0 < grown <= 2 * u32::MAX,
            doubled_to(grown as int, min as int) == doubled_to(
                DEFAULT_ATLAS_SIZE as int,
                min as int,
            ),
        decreases (if grown < min { min - grown } else { 0 }),
    {
        grown = grown * 2;
    }
    proof {
        lemma_doubled_to(DEFAULT_ATLAS_SIZE as int, min as int);
    }
    if grown <= limit as u64 {
        grown as u32
    } else {
        limit
    }
}

/// True when slot `i` holds a texture with room for a tile of the given size.
pub open spec fn slot_has_room(textures: Seq<Option<TextureModel>>, size: Size, i: int) -> bool {
    &&& 0 <= i < textures.len()
    &&& textures[i] matches Some(texture)
    &&& texture.has_room(size)
}

/// True when some texture has room for a tile of the given size.
pub open spec fn some_texture_has_room(textures: Seq<Option<TextureModel>>, size: Size) -> bool {
    exists|i: int| slot_has_room(textures, size, i)
}

/// True when `i` is the first slot that holds a texture with room.
pub open spec fn is_first_with_room(textures: Seq<Option<TextureModel>>, size: Size, i: int) -> bool {
    &&& slot_has_room(textures, size, i)
    &&& forall|k: int| 0 <= k < i ==> !slot_has_room(textures, size, k)
}

/// The first slot that holds a texture with room, where there is one.
pub open spec fn first_with_room(textures: Seq<Option<TextureModel>>, size: Size) -> int {
    choose|i: int| is_first_with_room(textures, size, i)
}

/// True when `i` is the slot that the next new texture takes: the lowest free
/// slot, or the end of the table when no slot is free.
pub open spec fn is_next_slot(textures: Seq<Option<TextureModel>>, i: int) -> bool {
    &&& 0 <= i <= textures.len()
    &&& i < textures.len() ==> textures[i] is None
    &&& forall|k: int| 0 <= k < i ==> (#[trigger] textures[k]) is Some
}

/// The slot that the next new texture takes.
pub open spec fn next_slot(textures: Seq<Option<TextureModel>>) -> int {
    choose|i: int| is_next_slot(textures, i)
}

/// The free slots of a table.
pub open spec fn free_slots(textures: Seq<Option<TextureModel>>) -> Set<int> {
    Set::new(|i: int| 0 <= i < textures.len() && textures[i] is None)
}

/// The table with `texture` in slot `i`, which is a slot of the table or its end.
pub open spec fn with_texture(
    textures: Seq<Option<TextureModel>>,
    i: int,
    texture: TextureModel,
) -> Seq<Option<TextureModel>> {
    if i < textures.len() {
        textures.update(i, Some(texture))
    } else {
        textures.push(Some(texture))
    }
}

/// What is left of a texture when one of its tiles goes: nothing when it
/// was the last one; else the texture with one key less and, where `bounds`
/// is a live region, without that region.
pub open spec fn texture_without_tile(texture: TextureModel, bounds: Bounds) -> Option<TextureModel> {
    if texture.live_keys <= 1 {
        None
    } else {
        let counted = TextureModel { live_keys: (texture.live_keys - 1) as nat, ..texture };
        if texture.regions().contains(bounds) {
            Some(counted.without_region(bounds))
        } else {
            Some(counted)
        }
    }
}

/// There is one first slot with room at most.
pub proof fn lemma_first_with_room(textures: Seq<Option<TextureModel>>, size: Size, i: int)
    requires
        is_first_with_room(textures, size, i),
    ensures
        some_texture_has_room(textures, size),
        first_with_room(textures, size) == i,
{
    let c = first_with_room(textures, size);
    assert(is_first_with_room(textures, size, c));
    if c < i {
        assert(!slot_has_room(textures, size, c));
    } else if i < c {
        assert(!slot_has_room(textures, size, i));
    }
}

/// There is one next slot at most.
pub proof fn lemma_next_slot(textures: Seq<Option<TextureModel>>, i: int)
    requires
        is_next_slot(textures, i),
    ensures
        next_slot(textures) == i,
{
    let c = next_slot(textures);
    assert(is_next_slot(textures, c));
    if c < i {
        assert(textures[c] is Some);
    } else if i < c {
        assert(textures[i] is Some);
    }
}

/// The backing textures of one kind.
///
/// Its view is the sequence of its slots, each the picture of the texture it
/// holds or `None` where the slot is free.
pub struct AtlasTextureList {
    kind: AtlasTextureKind,
    textures: Vec<Option<WgpuAtlasTexture>>,
    free_list: Vec<usize>,
}

impl AtlasTextureList {
    /// The kind of the textures of this table.
    pub closed spec fn kind(&self) -> AtlasTextureKind {
        self.kind
    }

    pub closed spec fn view(&self) -> Seq<Option<TextureModel>> {
        Seq::new(
            self.textures@.len(),
            |i: int|
                match self.textures@[i] {
                    Some(texture) => Some(texture@),
                    None => None,
                },
        )
    }

    /// The indices that the free list holds.
    pub closed spec fn free_list(&self) -> Seq<usize> {
        self.free_list@
    }

    /// The invariant of the table: each texture is well formed and knows its
    /// slot, and the free list holds each free slot once and nothing else.
    pub closed spec fn wf(&self) -> bool {
        &&& forall|i: int|
            0 <= i < self.textures@.len() ==> (#[trigger] self.textures@[i] matches Some(texture)
                ==> texture.wf() && texture.id() == AtlasTextureId {
                index: i as usize,
                kind: self.kind,
            })
        &&& forall|k: int|
            0 <= k < self.free_list@.len() ==> (#[trigger] self.free_list@[k])
                < self.textures@.len() && self.textures@[self.free_list@[k] as int] is None
        &&& forall|i: int|
            0 <= i < self.textures@.len() && (#[trigger] self.textures@[i]) is None ==> exists|
                k: int,
            |
                0 <= k < self.free_list@.len() && #[trigger] self.free_list@[k] == i
        &&& forall|k: int, m: int|
            0 <= k < m < self.free_list@.len() ==> #[trigger] self.free_list@[k]
                != #[trigger] self.free_list@[m]
    }

    /// In a well-formed table every texture is well formed, and the free
    /// list holds exactly the free slots.
    pub proof fn law_free_list(&self)
        requires
            self.wf(),
        ensures
            forall|i: int|
                0 <= i < self@.len() ==> (#[trigger] self@[i] matches Some(texture)
                    ==> texture.wf()),
            self.free_list().to_set().map(|i: usize| i as int) == free_slots(self@),
    {
        let mapped = self.free_list().to_set().map(|i: usize| i as int);
        assert forall|i: int| mapped.contains(i) <==> free_slots(self@).contains(i) by {
            if mapped.contains(i) {
                let u = choose|u: usize| self.free_list().to_set().contains(u) && u as int == i;
                let k = choose|k: int| 0 <= k < self.free_list@.len() && self.free_list@[k] == u;
                assert(self.textures@[self.free_list@[k] as int] is None);
            }
            if free_slots(self@).contains(i) {
                assert(self.textures@[i] is None);
                let k = choose|k: int|
                    0 <= k < self.free_list@.len() && #[trigger] self.free_list@[k] == i;
                assert(self.free_list().to_set().contains(self.free_list@[k]));
                assert(self.free_list@[k] as int == i);
            }
        }
        assert(mapped =~= free_slots(self@));
    }

    /// The table has no more slots than the machine can count.
    pub proof fn lemma_len(&self)
        ensures
            self@.len() <= usize::MAX,
    {
        assert(self.textures.len() == self.textures@.len());
    }

    /// A table without slots.
    pub fn new(kind: AtlasTextureKind) -> (r: Self)
        ensures
            r.wf(),
            r.kind() == kind,
            r@ == Seq::<Option<TextureModel>>::empty(),
    {
        let r = AtlasTextureList { kind, textures: Vec::new(), free_list: Vec::new() };
        assert(r@ =~= Seq::<Option<TextureModel>>::empty());
        r
    }

    /// The number of slots, free ones included.
    pub fn len(&self) -> (r: usize)
        ensures
            r == self@.len(),
    {
        self.textures.len()
    }

    /// The texture in slot `index`, or `None` when the slot is free or does
    /// not exist.
    pub fn get(&self, index: usize) -> (r: Option<&WgpuAtlasTexture>)
        requires
            self.wf(),
        ensures
            r is Some <==> index < self@.len() && self@[index as int] is Some,
            r matches Some(texture) ==> {
                &&& Some(texture@) == self@[index as int]
                &&& texture.wf()
                &&& texture.id() == (AtlasTextureId { index, kind: self.kind() })
            },
    {
        if index < self.textures.len() {
            self.textures[index].as_ref()
        } else {
            None
        }
    }

    /// The texture in slot `index`, which must hold one.
    pub fn index(&self, index: usize) -> (r: &WgpuAtlasTexture)
        requires
            self.wf(),
            index < self@.len(),
            self@[index as int] is Some,
        ensures
            Some(r@) == self@[index as int],
            r.wf(),
            r.id() == (AtlasTextureId { index, kind: self.kind() }),
    {
        self.textures[index].as_ref().unwrap()
    }

    /// Makes a new, empty texture that can hold a tile of size `min_size`,
    /// and returns its slot: the lowest free slot, or a new slot at the end
    /// of the table when none is free.
    pub fn push_texture(&mut self, min_size: Size, limit: u32) -> (index: usize)
        requires
            old(self).wf(),
        ensures
            final(self).wf(),
            final(self).kind() == old(self).kind(),
            is_next_slot(old(self)@, index as int),
            final(self)@ == with_texture(
                old(self)@,
                index as int,
                TextureModel::fresh(texture_size_for(min_size, limit)),
            ),
    {
        let size = Size {
            width: grow_extent(min_size.width, limit),
            height: grow_extent(min_size.height, limit),
        };
        let n = self.free_list.len();
        if n == 0 {
            let index = self.textures.len();
            let id = AtlasTextureId { index, kind: self.kind };
            self.textures.push(Some(WgpuAtlasTexture::new(id, size)));
            proof {
                assert forall|k: int| 0 <= k < index implies (#[trigger] old(self)@[k]) is Some by {
                    if old(self).textures@[k] is None {
                        let w = choose|w: int|
                            0 <= w < old(self).free_list@.len() && #[trigger] old(
                                self,
                            ).free_list@[w] == k;
                    }
                }
                assert(final(self)@ =~= old(self)@.push(
                    Some(TextureModel::fresh(texture_size_for(min_size, limit))),
                ));
            }
            index
        } else {
            let mut best: usize = 0;
            let mut k: usize = 1;
            while k < n
                invariant
                    1 <= k <= n,
                    best < n,
                    n == self.free_list@.len(),
                    forall|m: int| 0 <= m < k ==> self.free_list@[best as int] <= #[trigger] self.free_list@[m],
                decreases n - k,
            {
                if self.free_list[k] < self.free_list[best] {
                    best = k;
                }
                k += 1;
            }
            let index = self.free_list.swap_remove(best);
            let id = AtlasTextureId { index, kind: self.kind };
            self.textures.set(index, Some(WgpuAtlasTexture::new(id, size)));
            proof {
                let old_free = old(self).free_list@;
                let new_free = self.free_list@;
                assert forall|j: int| 0 <= j < index implies (#[trigger] old(self)@[j]) is Some by {
                    if old(self).textures@[j] is None {
                        let w = choose|w: int| 0 <= w < old_free.len() && #[trigger] old_free[w] == j;
                        assert(old_free[best as int] <= old_free[w]);
                    }
                }
                assert(old(self)@[index as int] is None);
                assert forall|m: int| 0 <= m < new_free.len() implies (#[trigger] new_free[m])
                    < self.textures@.len() && self.textures@[new_free[m] as int] is None by {
                    if m == best {
                        assert(new_free[m] == old_free[old_free.len() - 1]);
                        assert(old_free[best as int] != old_free[old_free.len() - 1]);
                    } else {
                        assert(new_free[m] == old_free[m]);
                        if m < best {
                            assert(old_free[m] != old_free[best as int]);
                        } else {
                            assert(old_free[best as int] != old_free[m]);
                        }
                    }
                }
                assert forall|i: int|
                    0 <= i < self.textures@.len() && (#[trigger] self.textures@[i]) is None implies exists|
                    m: int,
                |
                    0 <= m < new_free.len() && #[trigger] new_free[m] == i by {
                    assert(old(self).textures@[i] is None);
                    let w = choose|w: int| 0 <= w < old_free.len() && #[trigger] old_free[w] == i;
                    if w == old_free.len() - 1 {
                        assert(new_free[best as int] == i);
                    } else {
                        assert(new_free[w] == i);
                    }
                }
                assert forall|a: int, b: int| 0 <= a < b < new_free.len() implies #[trigger] new_free[a]
                    != #[trigger] new_free[b] by {
                    let a0 = if a == best { old_free.len() - 1 } else { a };
                    let b0 = if b == best { old_free.len() - 1 } else { b };
                    assert(new_free[a] == old_free[a0]);
                    assert(new_free[b] == old_free[b0]);
                    if a0 < b0 {
                        assert(old_free[a0] != old_free[b0]);
                    } else {
                        assert(old_free[b0] != old_free[a0]);
                    }
                }
                assert(final(self)@ =~= old(self)@.update(
                    index as int,
                    Some(TextureModel::fresh(texture_size_for(min_size, limit))),
                ));
            }
            index
        }
    }

    /// Empties slot `index` and puts it on the free list. Returns the
    /// texture that the slot held, or `None`, changing nothing, when the
    /// slot was free or does not exist.
    pub fn release(&mut self, index: usize) -> (r: Option<WgpuAtlasTexture>)
        requires
            old(self).wf(),
        ensures
            final(self).wf(),
            final(self).kind() == old(self).kind(),
            r is Some <==> index < old(self)@.len() && old(self)@[index as int] is Some,
            r matches Some(texture) ==> Some(texture@) == old(self)@[index as int]
                && final(self)@ == old(self)@.update(index as int, None),
            r is None ==> final(self)@ == old(self)@,
    {
        if index < self.textures.len() && self.textures[index].is_some() {
            let texture = self.textures[index].take();
            self.free_list.push(index);
            proof {
                let old_free = old(self).free_list@;
                let new_free = self.free_list@;
                assert forall|i: int|
                    0 <= i < self.textures@.len() && (#[trigger] self.textures@[i]) is None implies exists|
                    m: int,
                |
                    0 <= m < new_free.len() && #[trigger] new_free[m] == i by {
                    if i == index {
                        assert(new_free[old_free.len() as int] == i);
                    } else {
                        let w = choose|w: int| 0 <= w < old_free.len() && #[trigger] old_free[w] == i;
                        assert(new_free[w] == i);
                    }
                }
                assert forall|a: int, b: int| 0 <= a < b < new_free.len() implies #[trigger] new_free[a]
                    != #[trigger] new_free[b] by {
                    if b == old_free.len() {
                        assert(old(self).textures@[old_free[a] as int] is None);
                    } else {
                        assert(old_free[a] != old_free[b]);
                    }
                }
                assert(final(self)@ =~= old(self)@.update(index as int, None));
            }
            texture
        } else {
            None
        }
    }

    /// Places a tile of the given size in the first texture that has room
    /// for it, or returns `None` when no texture of the table has.
    pub fn allocate(&mut self, size: Size) -> (r: Option<AtlasTile>)
        requires
            old(self).wf(),
        ensures
            final(self).wf(),
            final(self).kind() == old(self).kind(),
            r is Some <==> some_texture_has_room(old(self)@, size),
            r matches Some(tile) ==> {
                let i = first_with_room(old(self)@, size);
                let texture = old(self)@[i]->0;
                &&& is_first_with_room(old(self)@, size, i)
                &&& tile == (AtlasTile {
                    texture_id: AtlasTextureId { index: i as usize, kind: old(self).kind() },
                    bounds: placement(texture.layout, texture.size, size),
                    padding: 0,
                })
                &&& final(self)@ == old(self)@.update(i, Some(texture.with_region(size)))
                &&& tile.bounds.size == size
                &&& tile.bounds.within(texture.size)
                &&& !texture.regions().contains(tile.bounds)
                &&& texture.with_region(size).regions() == texture.regions().insert(tile.bounds)
            },
            r is None ==> final(self)@ == old(self)@,
    {
        let n = self.textures.len();
        let mut i: usize = 0;
        while i < n
            invariant
                i <= n,
                n == self.textures@.len(),
                self.wf(),
                self.kind == old(self).kind,
                self@ == old(self)@,
                forall|k: int| 0 <= k < i ==> !slot_has_room(old(self)@, size, k),
            decreases n - i,
        {
            let ghost before = self@;
            let ghost before_textures = self.textures@;
            let found = match &mut self.textures[i] {
                Some(texture) => texture.allocate(size),
                None => None,
            };
            match found {
                Some(tile) => {
                    proof {
                        lemma_first_with_room(old(self)@, size, i as int);
                        assert(final(self)@ =~= old(self)@.update(
                            i as int,
                            Some((old(self)@[i as int]->0).with_region(size)),
                        ));
                    }
                    return Some(tile);
                },
                None => {
                    assert(self@ =~= before);
                },
            }
            i += 1;
        }
        proof {
            if some_texture_has_room(old(self)@, size) {
                let w = choose|w: int| slot_has_room(old(self)@, size, w);
                assert(!slot_has_room(old(self)@, size, w));
            }
        }
        None
    }

    /// Counts one more key whose tile lives in the texture of slot `index`.
    pub(crate) fn increment_ref_count(&mut self, index: usize)
        requires
            old(self).wf(),
            index < old(self)@.len(),
            old(self)@[index as int] is Some,
            (old(self)@[index as int]->0).live_keys < usize::MAX,
        ensures
            final(self).wf(),
            final(self).kind() == old(self).kind(),
            final(self)@ == old(self)@.update(
                index as int,
                Some(
                    TextureModel {
                        live_keys: (old(self)@[index as int]->0).live_keys + 1,
                        ..old(self)@[index as int]->0
                    },
                ),
            ),
    {
        match &mut self.textures[index] {
            Some(texture) => {
                texture.increment_ref_count();
            },
            None => {},
        }
        assert(final(self)@ =~= old(self)@.update(
            index as int,
            Some(
                TextureModel {
                    live_keys: (old(self)@[index as int]->0).live_keys + 1,
                    ..old(self)@[index as int]->0
                },
            ),
        ));
    }

    /// Takes the tile with the given bounds out of the texture of slot
    /// `index`: the texture counts one key less, and the region returns to
    /// its allocator. When that was the texture's last key, the texture is
    /// destroyed and its slot released; the result says whether it was.
    pub(crate) fn remove_tile(&mut self, index: usize, bounds: Bounds) -> (destroyed: bool)
        requires
            old(self).wf(),
            index < old(self)@.len(),
            old(self)@[index as int] is Some,
        ensures
            final(self).wf(),
            final(self).kind() == old(self).kind(),
            destroyed == ((old(self)@[index as int]->0).live_keys <= 1),
            final(self)@ == old(self)@.update(
                index as int,
                texture_without_tile(old(self)@[index as int]->0, bounds),
            ),
    {
        let last = match &mut self.textures[index] {
            Some(texture) => {
                texture.decrement_ref_count();
                if texture.is_unreferenced() {
                    true
                } else {
                    texture.free(bounds);
                    false
                }
            },
            None => false,
        };
        if last {
            let ghost before = self@;
            proof {
                assert(before =~= old(self)@.update(
                    index as int,
                    Some(TextureModel { live_keys: 0, ..old(self)@[index as int]->0 }),
                ));
            }
            self.release(index);
            assert(final(self)@ =~= old(self)@.update(index as int, None));
        } else {
            assert(final(self)@ =~= old(self)@.update(
                index as int,
                texture_without_tile(old(self)@[index as int]->0, bounds),
            ));
        }
        last
    }
}

} // verus!
