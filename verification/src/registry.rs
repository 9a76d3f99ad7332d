//! Meshes by content: one name per shape, however many things are drawn with it.
//!
//! A [`MeshHandle`] is the hash of a mesh's content. The library keeps the
//! meshes themselves, the registry what the GPU holds of them; in both, the
//! first to arrive under a handle stays, since a second has the same content.

use std::collections::HashMap;
use vstd::prelude::*;
use crate::float::Vec3;

verus! {

broadcast use vstd::std_specs::hash::group_hash_axioms;

/// A mesh's name: the hash of its content.
#[derive(Clone, Copy, Debug, PartialEq, Eq, PartialOrd, Ord, Structural, Hash)]
pub struct MeshHandle(pub u64);

/// A box along the axes.
#[derive(Clone, Copy, Debug, PartialEq, Eq, Structural, Hash)]
pub struct Aabb {
    pub min: Vec3,
    pub max: Vec3,
}

/// The meshes of a world, by handle.
pub struct MeshLibrary<M> {
    meshes: HashMap<u64, M>,
}

impl<M> View for MeshLibrary<M> {
    type V = Map<u64, M>;

    closed spec fn view(&self) -> Map<u64, M> {
        self.meshes@
    }
}

/// `m` with `value` under `key`, unless there is something there already.
pub open spec fn inserted_once<V>(m: Map<u64, V>, key: u64, value: V) -> Map<u64, V> {
    if m.contains_key(key) {
        m
    } else {
        m.insert(key, value)
    }
}

impl<M> MeshLibrary<M> {
    pub fn new() -> (r: MeshLibrary<M>)
        ensures
            r@ == Map::<u64, M>::empty(),
    {
        MeshLibrary { meshes: HashMap::new() }
    }

    /// Keep `mesh`, whose content hashes to `hash`, and name it.
    pub fn insert(&mut self, hash: u64, mesh: M) -> (r: MeshHandle)
        ensures
            r == MeshHandle(hash),
            final(self)@ == inserted_once(old(self)@, hash, mesh),
    {
        if !self.meshes.contains_key(&hash) {
            self.meshes.insert(hash, mesh);
        }
        MeshHandle(hash)
    }

    pub fn get(&self, handle: MeshHandle) -> (r: Option<&M>)
        ensures
            r == if self@.contains_key(handle.0) {
                Some(&self@[handle.0])
            } else {
                None
            },
    {
        self.meshes.get(&handle.0)
    }

    pub fn contains(&self, handle: MeshHandle) -> (r: bool)
        ensures
            r == self@.contains_key(handle.0),
    {
        self.meshes.contains_key(&handle.0)
    }

    pub fn len(&self) -> (r: usize)
        ensures
            r == self@.len(),
    {
        self.meshes.len()
    }

    pub fn is_empty(&self) -> (r: bool)
        ensures
            r == (self@.len() == 0),
    {
        self.meshes.len() == 0
    }
}

/// What the GPU holds of a mesh: two buffers, and what a draw needs to know.
#[derive(Debug)]
pub struct GpuMesh<B> {
    pub vertices: B,
    pub indices: B,
    pub index_count: u32,
    pub vertex_count: u32,
    pub bounds: Option<Aabb>,
}

/// The meshes that are on the GPU, by handle.
pub struct MeshRegistry<B> {
    meshes: HashMap<u64, GpuMesh<B>>,
}

impl<B> View for MeshRegistry<B> {
    type V = Map<u64, GpuMesh<B>>;

    closed spec fn view(&self) -> Map<u64, GpuMesh<B>> {
        self.meshes@
    }
}

impl<B> MeshRegistry<B> {
    pub fn new() -> (r: MeshRegistry<B>)
        ensures
            r@ == Map::<u64, GpuMesh<B>>::empty(),
    {
        MeshRegistry { meshes: HashMap::new() }
    }

    /// Keep what was uploaded for `handle`. A mesh that is there already stays,
    /// so a caller asks [`contains`](MeshRegistry::contains) before it uploads.
    pub fn register(&mut self, handle: MeshHandle, mesh: GpuMesh<B>) -> (r: MeshHandle)
        ensures
            r == handle,
            final(self)@ == inserted_once(old(self)@, handle.0, mesh),
    {
        if !self.meshes.contains_key(&handle.0) {
            self.meshes.insert(handle.0, mesh);
        }
        handle
    }

    pub fn get(&self, handle: MeshHandle) -> (r: Option<&GpuMesh<B>>)
        ensures
            r == if self@.contains_key(handle.0) {
                Some(&self@[handle.0])
            } else {
                None
            },
    {
        self.meshes.get(&handle.0)
    }

    pub fn bounds(&self, handle: MeshHandle) -> (r: Option<Aabb>)
        ensures
            r == if self@.contains_key(handle.0) {
                self@[handle.0].bounds
            } else {
                None
            },
    {
        match self.meshes.get(&handle.0) {
            Some(mesh) => mesh.bounds,
            None => None,
        }
    }

    pub fn contains(&self, handle: MeshHandle) -> (r: bool)
        ensures
            r == self@.contains_key(handle.0),
    {
        self.meshes.contains_key(&handle.0)
    }

    pub fn len(&self) -> (r: usize)
        ensures
            r == self@.len(),
    {
        self.meshes.len()
    }

    pub fn is_empty(&self) -> (r: bool)
        ensures
            r == (self@.len() == 0),
    {
        self.meshes.len() == 0
    }
}

/// Registering the same content twice keeps one entry, and what came first.
pub proof fn inserting_twice_is_inserting_once<V>(m: Map<u64, V>, key: u64, a: V, b: V)
    ensures
        inserted_once(inserted_once(m, key, a), key, b) == inserted_once(m, key, a),
        m.contains_key(key) ==> inserted_once(m, key, a) == m,
        !m.contains_key(key) ==> inserted_once(m, key, a)[key] == a,
{
}

/// What is kept under a key is there: what was there before, or else what came. Nothing
/// else changes.
pub proof fn what_is_kept_is_there<V>(m: Map<u64, V>, key: u64, value: V, other: u64)
    ensures
        ({
            let after = inserted_once(m, key, value);
            &&& after.contains_key(key)
            &&& m.contains_key(key) ==> after[key] == m[key]
            &&& !m.contains_key(key) ==> after[key] == value
            &&& other != key ==> after.contains_key(other) == m.contains_key(other) && after[other]
                == m[other]
        }),
{
}

} // verus!
