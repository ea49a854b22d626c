//! The atlas as the rest of a program sees it: one state behind one lock,
//! shared by whoever paints and whoever renders.
//!
//! What a call returns depends on what other callers did before it, so the
//! contracts here say only what holds of every outcome. What each operation
//! does to a given state is the contract of the method of the same name of
//! [`WgpuAtlasState`].

use crate::atlas_model::{answers, tile_suits, AtlasModel};
use crate::atlas_state::WgpuAtlasState;
use crate::atlas_types::{
    AtlasError, AtlasKey, AtlasTextureId, AtlasTile, BuildError, FrameCommands, WgpuTextureInfo,
};
use crate::geometry::Size;
use vstd::prelude::*;

verus! {

/// `lock_api::Mutex`, the lock that `parking_lot::Mutex` is an alias of.
/// Nothing is said of what is inside.
#[verifier::external_type_specification]
#[verifier::external_body]
#[verifier::reject_recursive_types(R)]
#[verifier::reject_recursive_types(T)]
pub struct ExMutex<R, T: ?Sized>(parking_lot::lock_api::Mutex<R, T>);

/// `parking_lot::RawMutex`, the first parameter of `parking_lot::Mutex`.
#[verifier::external_type_specification]
#[verifier::external_body]
pub struct ExRawMutex(parking_lot::RawMutex);

/// A `parking_lot::MutexGuard` on the state: the lock while it is held.
/// Dropping it gives the lock back. The guard's own type is bounded by a
/// trait of the lock's crate, so it is kept behind this struct, of which
/// nothing is known but what [`lock`] and [`guarded`] say.
#[verifier::external_body]
struct Held<'a> {
    guard: parking_lot::MutexGuard<'a, Guarded>,
}

/// A state that is well formed: what the lock holds.
struct Guarded {
    state: WgpuAtlasState,
}

impl Guarded {
    #[verifier::type_invariant]
    spec fn inv(self) -> bool {
        self.state.wf()
    }

    /// A guarded atlas with nothing in it.
    fn new(max_texture_size: u32) -> (r: Guarded)
        ensures
            r@ == AtlasModel::empty(max_texture_size),
    {
        Guarded { state: WgpuAtlasState::new(max_texture_size) }
    }

    /// Returns the tile of a key in the atlas held, building and inserting
    /// it first when the key has none, as
    /// [`WgpuAtlasState::get_or_insert_with`] does.
    fn get_or_insert_with<F: FnOnce() -> Result<Option<(Size, Vec<u8>)>, BuildError>>(
        &mut self,
        key: &AtlasKey,
        build: F,
    ) -> (r: Result<Option<AtlasTile>, AtlasError>)
        requires
            build.requires(()),
        ensures
            old(self)@.contains(*key) ==> r == Ok::<Option<AtlasTile>, AtlasError>(
                Some(old(self)@.tile(*key)),
            ) && final(self)@ == old(self)@,
            !old(self)@.contains(*key) ==> exists|
                built: Result<Option<(Size, Vec<u8>)>, BuildError>,
            |
                build.ensures((), built) && r == old(self)@.built_result(*key, built)
                    && final(self)@ == old(self)@.built_state(*key, built),
            (r matches Ok(Some(tile)) && tile_suits(*key, tile)) || exists|
                built: Result<Option<(Size, Vec<u8>)>, BuildError>,
            |
                build.ensures((), built) && answers(*key, built, r),
    {
        proof {
            use_type_invariant(&*self);
        }
        match self.state.get(key) {
            Some(tile) => {
                proof {
                    self.state.lemma_wf();
                    self.state@.lemma_tile(*key);
                }
                Ok(Some(tile))
            },
            None => {
                // The builder runs before the state is taken out of `self`, so
                // that a builder that panics leaves the atlas as it was.
                let built = build();
                let ghost made = built;
                let mut state = WgpuAtlasState::new(0);
                std::mem::swap(&mut self.state, &mut state);
                let r = state.insert_built(key, built);
                self.state = state;
                proof {
                    assert(build.ensures((), made) && r == old(self)@.built_result(*key, made)
                        && final(self)@ == old(self)@.built_state(*key, made));
                    assert(build.ensures((), made) && answers(*key, made, r));
                }
                r
            },
        }
    }

    /// Removes a key from the atlas held, and returns the id of the
    /// texture that this destroyed, if any.
    fn remove(&mut self, key: &AtlasKey) -> (destroyed: Option<AtlasTextureId>)
        ensures
            final(self)@ == old(self)@.removed(*key),
            destroyed == old(self)@.destroyed_by(*key),
            destroyed matches Some(id) ==> id.kind == key.kind,
    {
        proof {
            use_type_invariant(&*self);
        }
        let mut state = WgpuAtlasState::new(0);
        std::mem::swap(&mut self.state, &mut state);
        let destroyed = state.remove(key);
        self.state = state;
        destroyed
    }

    /// Hands the queues of the atlas held to the frame that is about to be
    /// drawn.
    fn before_frame(&mut self) -> (r: FrameCommands)
        ensures
            final(self)@ == old(self)@.flushed(),
            r.initializations@ == old(self)@.frame_initializations(),
            r.uploads@ == old(self)@.uploads,
            r.staging@ == old(self)@.staging,
            r.wf(),
    {
        proof {
            use_type_invariant(&*self);
        }
        let mut state = WgpuAtlasState::new(0);
        std::mem::swap(&mut self.state, &mut state);
        let r = state.before_frame();
        self.state = state;
        r
    }

    /// Ends the frame of the atlas held, and returns how many staged bytes
    /// were in flight.
    fn after_frame(&mut self) -> (released: usize)
        ensures
            final(self)@ == old(self)@.frame_ended(),
            released == old(self)@.in_flight,
    {
        proof {
            use_type_invariant(&*self);
        }
        let mut state = WgpuAtlasState::new(0);
        std::mem::swap(&mut self.state, &mut state);
        let released = state.after_frame();
        self.state = state;
        released
    }

    /// What a renderer needs to bind the texture `id` of the atlas held, or
    /// `None` when no such texture lives.
    fn texture_info(&self, id: AtlasTextureId) -> (r: Option<WgpuTextureInfo>)
        ensures
            r == if self@.is_live(id) {
                Some(
                    WgpuTextureInfo {
                        id,
                        size: self@.texture(id).size,
                        bytes_per_pixel: id.kind.bytes_per_pixel(),
                    },
                )
            } else {
                None
            },
            r matches Some(info) ==> info.id == id && info.bytes_per_pixel
                == id.kind.bytes_per_pixel(),
    {
        proof {
            use_type_invariant(self);
        }
        self.state.texture_info(id)
    }

    /// The tile that a key has in the atlas held, if it has one.
    fn get(&self, key: &AtlasKey) -> (r: Option<AtlasTile>)
        ensures
            r == self@.lookup(*key),
            r matches Some(tile) ==> tile_suits(*key, tile),
    {
        proof {
            use_type_invariant(self);
        }
        let r = self.state.get(key);
        proof {
            if r is Some {
                self.state.lemma_wf();
                self.state@.lemma_tile(*key);
            }
        }
        r
    }

    /// The atlas that the lock holds.
    closed spec fn view(&self) -> AtlasModel {
        self.state@
    }
}

/// Makes the lock, by `parking_lot::Mutex::new`.
#[verifier::external_body]
fn new_mutex(guarded: Guarded) -> parking_lot::Mutex<Guarded> {
    parking_lot::Mutex::new(guarded)
}

/// Takes the lock, by `parking_lot::Mutex::lock`, waiting until no one else
/// holds it. It never returns when the caller's own thread holds the lock
/// already, which the atlas itself never does.
#[verifier::external_body]
fn lock<'a>(mutex: &'a parking_lot::Mutex<Guarded>) -> Held<'a> {
    Held { guard: mutex.lock() }
}

/// The state that the held lock guards, by the guard's `deref_mut`.
#[verifier::external_body]
fn guarded<'a, 'b>(held: &'a mut Held<'b>) -> &'a mut Guarded {
    &mut *held.guard
}

/// A texture atlas that many owners share.
///
/// All operations take the one lock of the atlas and run while they hold
/// it, so they happen one after the other. A builder runs under the lock
/// too: it must not use the atlas, or it waits for itself forever.
pub struct WgpuAtlas {
    state: parking_lot::Mutex<Guarded>,
}

impl WgpuAtlas {
    /// An atlas with nothing in it, whose textures are at most
    /// `max_texture_size` pixels wide and high.
    pub fn new(max_texture_size: u32) -> Self {
        WgpuAtlas { state: new_mutex(Guarded::new(max_texture_size)) }
    }

    /// The tile of a key, if it has one.
    pub fn get(&self, key: &AtlasKey) -> (r: Option<AtlasTile>)
        ensures
            r matches Some(tile) ==> tile_suits(*key, tile),
    {
        let mut held = lock(&self.state);
        guarded(&mut held).get(key)
    }

    /// Returns the tile of a key, building and inserting it first when the
    /// key has none, as [`WgpuAtlasState::get_or_insert_with`] does on the
    /// state that the lock holds.
    ///
    /// The result is a tile that suits the key, or it answers what the
    /// builder made.
    pub fn get_or_insert_with<F: FnOnce() -> Result<Option<(Size, Vec<u8>)>, BuildError>>(
        &self,
        key: &AtlasKey,
        build: F,
    ) -> (r: Result<Option<AtlasTile>, AtlasError>)
        requires
            build.requires(()),
        ensures
            (r matches Ok(Some(tile)) && tile_suits(*key, tile)) || exists|
                built: Result<Option<(Size, Vec<u8>)>, BuildError>,
            |
                build.ensures((), built) && answers(*key, built, r),
    {
        let mut held = lock(&self.state);
        guarded(&mut held).get_or_insert_with(key, build)
    }

    /// Removes a key, as [`WgpuAtlasState::remove`] does on the state that
    /// the lock holds, and returns the id of the texture that this
    /// destroyed, if any. Removing a key that has no tile does nothing.
    pub fn remove(&self, key: &AtlasKey) -> (destroyed: Option<AtlasTextureId>)
        ensures
            destroyed matches Some(id) ==> id.kind == key.kind,
    {
        let mut held = lock(&self.state);
        guarded(&mut held).remove(key)
    }

    /// Hands the queues to the frame that is about to be drawn, as
    /// [`WgpuAtlasState::before_frame`] does on the state that the lock
    /// holds.
    pub fn before_frame(&self) -> (r: FrameCommands)
        ensures
            r.wf(),
    {
        let mut held = lock(&self.state);
        guarded(&mut held).before_frame()
    }

    /// Ends the frame, as [`WgpuAtlasState::after_frame`] does on the state
    /// that the lock holds, and returns how many staged bytes it released.
    pub fn after_frame(&self) -> usize {
        let mut held = lock(&self.state);
        guarded(&mut held).after_frame()
    }

    /// What a renderer needs to bind the texture `id`, or `None` when no
    /// such texture lives.
    pub fn get_texture_info(&self, id: AtlasTextureId) -> (r: Option<WgpuTextureInfo>)
        ensures
            r matches Some(info) ==> info.id == id && info.bytes_per_pixel
                == id.kind.bytes_per_pixel(),
    {
        let mut held = lock(&self.state);
        guarded(&mut held).texture_info(id)
    }
}

} // verus!
