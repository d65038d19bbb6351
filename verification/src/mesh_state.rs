//! The state of chunk meshes, mesh data, mesh commands and meshing errors.
use vstd::prelude::*;
use crate::bounding_box::ChunkPos;
use crate::neighbors::Neighbors;
use crate::greedy::CqsError;

verus! {

/// Describes the state a chunk mesh is in.
#[derive(Copy, Clone, Debug, PartialEq, Eq, Hash, Structural)]
pub enum ChunkMeshState {
    /// An updated chunk mesh is absent, but there might be an outdated one present. A chunk mesh
    /// gets this state when its chunk changes, and loses it once a mesh has been built (or the
    /// chunk is found to be empty).
    Absent,
    /// The chunk mesh is built but has no geometry (the chunk is void, or every face is culled).
    Empty,
    /// The chunk mesh has geometry and is ready to be extracted to the render world.
    Filled,
    /// The chunk mesh has been extracted into the render world.
    Extracted,
}

/// The state of a chunk mesh, and the tick its build event was sent on. The tick is never
/// younger than the mesh itself: it keeps the most up-to-date mesh in use, and lets older
/// removal requests be ignored.
#[derive(Copy, Clone, Debug, PartialEq, Eq, Structural)]
pub struct ChunkMeshTimestate {
    pub tick: u64,
    pub status: ChunkMeshState,
}

impl ChunkMeshTimestate {
    /// An absent chunk mesh at the given tick.
    pub fn absent(tick: u64) -> (r: ChunkMeshTimestate)
        ensures
            r == (ChunkMeshTimestate { tick, status: ChunkMeshState::Absent }),
    {
        ChunkMeshTimestate { tick, status: ChunkMeshState::Absent }
    }
}

/// How soon a chunk should be remeshed.
#[derive(Copy, Clone, Debug, PartialEq, Eq, Hash, Structural)]
pub enum RemeshType {
    Immediate,
    Delayed,
}

/// Data of a chunk mesh, formatted to be uploaded to the GPU.
#[derive(Clone, Debug)]
pub struct ChunkMeshData {
    /// The index buffer of the mesh.
    pub index_buffer_data: Vec<u8>,
    /// The quad buffer of the mesh.
    pub quad_buffer_data: Vec<u8>,
}

impl ChunkMeshData {
    /// An empty chunk mesh.
    pub fn empty() -> (r: ChunkMeshData)
        ensures
            r.index_buffer_data@.len() == 0,
            r.quad_buffer_data@.len() == 0,
    {
        ChunkMeshData { index_buffer_data: Vec::new(), quad_buffer_data: Vec::new() }
    }

    /// `true` if the mesh has no indices or no quads.
    pub fn is_empty(&self) -> (r: bool)
        ensures
            r == (self.index_buffer_data@.len() == 0 || self.quad_buffer_data@.len() == 0),
    {
        self.index_buffer_data.len() == 0 || self.quad_buffer_data.len() == 0
    }

    /// The state a chunk mesh with this data starts in when it is queued for extraction: empty
    /// or filled.
    pub fn status(&self) -> (r: ChunkMeshState)
        ensures
            r == (if self.index_buffer_data@.len() == 0 || self.quad_buffer_data@.len() == 0 {
                ChunkMeshState::Empty
            } else {
                ChunkMeshState::Filled
            }),
    {
        if self.is_empty() {
            ChunkMeshState::Empty
        } else {
            ChunkMeshState::Filled
        }
    }
}

/// Identifier of a mesh command.
#[derive(Copy, Clone, Debug, Hash, PartialEq, Eq, Structural)]
pub struct MeshCommandId(pub u32);

impl MeshCommandId {
    pub fn new(id: u32) -> (r: MeshCommandId)
        ensures
            r.0 == id,
    {
        MeshCommandId(id)
    }
}

/// A command to mesh the chunk at a position.
#[derive(Copy, Clone, Debug, PartialEq, Eq, Structural)]
pub struct MeshCommand {
    pub pos: ChunkPos,
    pub id: MeshCommandId,
}

/// Where and when a mesh job should run.
#[derive(Copy, Clone, Debug, PartialEq, Eq, Structural)]
pub enum MeshJobUrgency {
    /// Immediate mesh building, waiting for the mesh before the next frame.
    P0,
    /// Background mesh building with the given priority: the higher, the sooner.
    P1(u32),
}

/// Event sent when the mesh of a chunk should be built; its neighbors in `neighbors` are
/// remeshed too when they have a mesh.
#[derive(Copy, Clone, Debug)]
pub struct BuildChunkMeshEvent {
    pub chunk_pos: ChunkPos,
    pub urgency: MeshJobUrgency,
    pub neighbors: crate::neighbors::NeighborSelection,
    pub tick: u64,
}

/// Event sent to remove the mesh of a chunk (and any older pending job for it).
#[derive(Copy, Clone, Debug, PartialEq, Eq, Structural)]
pub struct RemoveChunkMeshEvent {
    pub chunk_pos: ChunkPos,
    pub tick: u64,
}

/// What the mesher reads besides the chunk: its neighbors.
pub struct Context<H> {
    pub neighbors: Neighbors<H>,
}

/// Error of a mesher.
#[derive(Clone, Debug, PartialEq, Eq)]
pub enum MesherError {
    /// Error from reading a chunk slice.
    CqsError(CqsError),
    /// Internal error of the mesher, with its message.
    CustomError(String),
}

impl MesherError {
    /// An internal error with the given message.
    pub fn custom(message: String) -> (r: MesherError)
        ensures
            r == MesherError::CustomError(message),
    {
        MesherError::CustomError(message)
    }
}

/// Error when creating a mesh for a chunk.
#[derive(Clone, Debug, PartialEq, Eq)]
pub enum ChunkMeshingError {
    /// Error of the meshing algorithm.
    MesherError(MesherError),
    /// Error when getting the chunk to mesh.
    ChunkGetError,
    /// Attempted to mesh a primordial (uninitialized) chunk, which has no data.
    PrimordialChunk,
}

} // verus!
