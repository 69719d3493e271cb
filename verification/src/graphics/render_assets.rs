//! Renderer-side asset registry: gameplay code names geometry by CPU mesh
//! handle, the renderer owns the GPU copies, and this registry caches uploads.
use vstd::prelude::*;
use std::collections::HashMap;
use crate::graphics::primitives::{CpuMeshHandle, MeshHandle};

verus! {

broadcast use vstd::std_specs::hash::group_hash_axioms;

/// Uploads CPU meshes of type `M` to the GPU; implemented by renderers.
pub trait MeshUploader<M> {
    fn upload_mesh(&mut self, mesh: &M) -> Result<MeshHandle, String>;
}

/// Why a GPU mesh handle could not be produced.
#[derive(Debug)]
pub enum AssetError {
    /// The CPU mesh handle names no registered mesh.
    InvalidCpuMeshHandle,
    /// The renderer failed to upload the mesh.
    Upload(String),
}

pub struct RenderAssets<M> {
    cpu_meshes: Vec<M>,
    gpu_meshes: HashMap<u32, MeshHandle>,
}

impl<M> RenderAssets<M> {
    /// Registered CPU meshes, in registration order.
    pub closed spec fn meshes(&self) -> Seq<M> {
        self.cpu_meshes@
    }

    /// Uploaded meshes: CPU mesh handle number to GPU handle.
    pub closed spec fn uploads(&self) -> Map<u32, MeshHandle> {
        self.gpu_meshes@
    }

    pub fn new() -> (r: Self)
        ensures
            r.meshes() == Seq::<M>::empty(),
            r.uploads() == Map::<u32, MeshHandle>::empty(),
    {
        RenderAssets { cpu_meshes: Vec::new(), gpu_meshes: HashMap::new() }
    }

    /// Register CPU mesh data and get its handle: its registration index.
    pub fn register_mesh(&mut self, mesh: M) -> (h: CpuMeshHandle)
        ensures
            h.0 == old(self).meshes().len() as u32,
            final(self).meshes() == old(self).meshes().push(mesh),
            final(self).uploads() == old(self).uploads(),
    {
        let h = CpuMeshHandle(self.cpu_meshes.len() as u32);
        self.cpu_meshes.push(mesh);
        h
    }

    /// The CPU mesh behind a handle, if one is registered.
    pub fn cpu_mesh(&self, h: CpuMeshHandle) -> (r: Option<&M>)
        ensures
            r == (if (h.0 as int) < self.meshes().len() {
                Some(&self.meshes()[h.0 as int])
            } else {
                None
            }),
    {
        let i = h.0 as usize;
        if i < self.cpu_meshes.len() {
            Some(&self.cpu_meshes[i])
        } else {
            None
        }
    }

    /// The mesh that must be uploaded to serve `cpu_mesh`: the registered mesh
    /// behind the handle, when it has no GPU copy yet; `None` when it is
    /// already uploaded or names no mesh.
    pub fn mesh_to_upload(&self, cpu_mesh: CpuMeshHandle) -> (r: Option<&M>)
        ensures
            r == (if !self.uploads().contains_key(cpu_mesh.0) && (cpu_mesh.0 as int) < self.meshes().len() {
                Some(&self.meshes()[cpu_mesh.0 as int])
            } else {
                None
            }),
    {
        if self.gpu_meshes.contains_key(&cpu_mesh.0) {
            return None;
        }
        self.cpu_mesh(cpu_mesh)
    }

    /// Record what the renderer answered to the upload of `cpu_mesh`: a
    /// handle is cached and returned, a failure is returned as an upload
    /// error and nothing is cached.
    pub fn record_upload(&mut self, cpu_mesh: CpuMeshHandle, uploaded: Result<MeshHandle, String>) -> (r: Result<MeshHandle, AssetError>)
        ensures
            final(self).meshes() == old(self).meshes(),
            match uploaded {
                Ok(h) => r == Ok::<MeshHandle, AssetError>(h)
                    && final(self).uploads() == old(self).uploads().insert(cpu_mesh.0, h),
                Err(e) => r matches Err(AssetError::Upload(e2)) && e2 == e
                    && final(self).uploads() == old(self).uploads(),
            },
    {
        match uploaded {
            Ok(h) => {
                self.gpu_meshes.insert(cpu_mesh.0, h);
                Ok(h)
            },
            Err(e) => Err(AssetError::Upload(e)),
        }
    }

    /// Get the renderer's handle for a CPU mesh, uploading it the first time.
    /// The mesh handed to the uploader is `mesh_to_upload(cpu_mesh)`, and its
    /// answer is recorded by `record_upload`.
    pub fn gpu_mesh_handle<U: MeshUploader<M>>(&mut self, uploader: &mut U, cpu_mesh: CpuMeshHandle) -> (r: Result<MeshHandle, AssetError>)
        ensures
            final(self).meshes() == old(self).meshes(),
            old(self).uploads().contains_key(cpu_mesh.0) ==> r == Ok::<MeshHandle, AssetError>(
                old(self).uploads()[cpu_mesh.0],
            ) && final(self).uploads() == old(self).uploads(),
            !old(self).uploads().contains_key(cpu_mesh.0) && (cpu_mesh.0 as int) >= old(self).meshes().len()
                ==> r is Err && r->Err_0 is InvalidCpuMeshHandle && final(self).uploads() == old(self).uploads(),
            !old(self).uploads().contains_key(cpu_mesh.0) && (cpu_mesh.0 as int) < old(self).meshes().len()
                ==> match r {
                Ok(h) => final(self).uploads() == old(self).uploads().insert(cpu_mesh.0, h),
                Err(e) => e is Upload && final(self).uploads() == old(self).uploads(),
            },
    {
        match self.gpu_meshes.get(&cpu_mesh.0) {
            Some(h) => {
                return Ok(*h);
            },
            None => {},
        }
        let uploaded = match self.mesh_to_upload(cpu_mesh) {
            None => {
                return Err(AssetError::InvalidCpuMeshHandle);
            },
            Some(mesh) => uploader.upload_mesh(mesh),
        };
        self.record_upload(cpu_mesh, uploaded)
    }
}

} // verus!
