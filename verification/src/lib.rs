//! Resource- and pipeline-management core of a real-time 3D renderer.
//!
//! The library tracks GPU-resident assets (meshes, textures, shaders,
//! materials, uniform buffers and composite models) behind opaque,
//! reference-counted handles, derives binding wiring from shader source text
//! by lightweight reflection, deduplicates pipeline objects by structural
//! key, and keeps dirty-tracked buffer payloads in sync with their device
//! copies.  GPU objects themselves are modelled as plain data (byte
//! contents, layout descriptions); a host binds the model to a real device.

pub mod buffer;
pub mod handles;
pub mod manager;
pub mod material;
pub mod mesh;
pub mod model;
pub mod namemap;
pub mod observable;
pub mod pipeline;
pub mod reflect;
pub mod registry;
pub mod scan;
pub mod shader;
pub mod texture;
pub mod uniform_buffer;

pub use buffer::{AsBytes, Buffer, BufferType};
pub use handles::{HandleArena, RefOp, ResourceHandle, ResourceHandleRaw, ResourceType};
pub use manager::{RenderPlan, ResourceManager, ShaderManager};
pub use material::{BindGroup, BoundResource, Material, MaterialError};
pub use mesh::{Mesh, MeshLayout, SubMesh};
pub use model::Model;
pub use observable::ObservableData;
pub use pipeline::{Pipeline, PipelineBuildSettings, PipelineManager};
pub use reflect::{Binding, BindingType, ReflectError, ShaderReflect};
pub use shader::{BindGroupLayout, Shader};
pub use texture::Texture;
pub use uniform_buffer::UniformBuffer;
