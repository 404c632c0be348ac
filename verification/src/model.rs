//! Models: a mesh wired to a material, with a live transform payload.
//!
//! The transform is carried as the GPU-ready byte image of its matrix
//! (the host computes it from its own math types).  A dedicated uniform
//! buffer holds the transform's device copy; the per-frame sync pushes the
//! live payload through that buffer.

use vstd::prelude::*;

use crate::handles::ResourceHandle;

verus! {

/// A mesh handle, a material handle, the live transform payload, and the
/// handle of the uniform buffer carrying the transform to the device.
pub struct Model {
    mesh: ResourceHandle,
    material: ResourceHandle,
    transform_data: Vec<u8>,
    transform_uniform_handle: ResourceHandle,
}

impl Model {
    /// The mesh this model draws.
    pub closed spec fn mesh_spec(&self) -> ResourceHandle {
        self.mesh
    }

    /// The material this model draws with.
    pub closed spec fn material_spec(&self) -> ResourceHandle {
        self.material
    }

    /// The live transform payload, as the bytes its uniform will hold.
    pub closed spec fn transform_data_spec(&self) -> Seq<u8> {
        self.transform_data@
    }

    /// The uniform buffer carrying the transform.
    pub closed spec fn transform_uniform_spec(&self) -> ResourceHandle {
        self.transform_uniform_handle
    }

    /// Builds a model.
    pub fn new(
        mesh: ResourceHandle,
        material: ResourceHandle,
        transform_data: Vec<u8>,
        transform_uniform_handle: ResourceHandle,
    ) -> (r: Model)
        ensures
            r.mesh_spec() == mesh,
            r.material_spec() == material,
            r.transform_data_spec() == transform_data@,
            r.transform_uniform_spec() == transform_uniform_handle,
    {
        Model { mesh, material, transform_data, transform_uniform_handle }
    }

    /// The mesh this model draws.
    pub fn get_mesh(&self) -> (r: &ResourceHandle)
        ensures
            *r == self.mesh_spec(),
    {
        &self.mesh
    }

    /// The material this model draws with.
    pub fn get_material(&self) -> (r: &ResourceHandle)
        ensures
            *r == self.material_spec(),
    {
        &self.material
    }

    /// The live transform payload.
    pub fn get_transform(&self) -> (r: &Vec<u8>)
        ensures
            r@ == self.transform_data_spec(),
    {
        &self.transform_data
    }

    /// Replaces the live transform payload; the device copy follows at the
    /// next per-frame sync.
    pub fn set_transform(&mut self, transform_data: Vec<u8>)
        ensures
            final(self).transform_data_spec() == transform_data@,
            final(self).mesh_spec() == old(self).mesh_spec(),
            final(self).material_spec() == old(self).material_spec(),
            final(self).transform_uniform_spec() == old(self).transform_uniform_spec(),
    {
        self.transform_data = transform_data;
    }

    /// The uniform buffer carrying the transform.
    pub fn get_transform_uniform_handle(&self) -> (r: &ResourceHandle)
        ensures
            *r == self.transform_uniform_spec(),
    {
        &self.transform_uniform_handle
    }
}

} // verus!
