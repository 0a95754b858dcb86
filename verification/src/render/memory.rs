//! The memory of the graphics device: its buffers, and how the shaders reach
//! them.

use vstd::prelude::*;

verus! {

/// What a buffer is for.
#[derive(Debug, Clone, Copy, PartialEq, Eq, Structural)]
pub enum BufferRole {
    Vertex,
    Face,
    Count,
    PerMesh,
    Light,
    Material,
    TextureStaging,
    Wireframe,
    CamMatrix,
    Configuration,
}

/// How a buffer is used.
#[derive(Debug, Clone, Copy, PartialEq, Eq, Structural)]
pub struct BufferUse {
    pub vertex: bool,
    pub index: bool,
    pub uniform: bool,
    pub uniform_texel: bool,
    pub transfer_src: bool,
}

/// How large a buffer is, and how it is used. Every buffer is written from the
/// host.
#[derive(Debug, Clone, Copy, PartialEq, Eq, Structural)]
pub struct BufferPlan {
    pub bytes: u64,
    pub usage: BufferUse,
}

impl BufferRole {
    /// The bytes of a buffer: 60 MB for five million vertices, and as much for
    /// as many faces; 64 KB for 1024 instances; 96 KB for lights; 16 KB for
    /// materials; 50 MB for a texture on its way, and as much for the
    /// configuration; one matrix for the camera; one vector for a count.
    pub open spec fn bytes(self) -> u64 {
        match self {
            BufferRole::Vertex => 62_914_560,
            BufferRole::Face => 62_914_560,
            BufferRole::Count => 16,
            BufferRole::PerMesh => 65_536,
            BufferRole::Light => 98_304,
            BufferRole::Material => 16_384,
            BufferRole::TextureStaging => 52_428_800,
            BufferRole::Wireframe => 16,
            BufferRole::CamMatrix => 64,
            BufferRole::Configuration => 52_428_800,
        }
    }

    /// Where the general descriptor set binds the buffer.
    pub open spec fn bound_at(self) -> Option<u32> {
        match self {
            BufferRole::Count => Some(0),
            BufferRole::PerMesh => Some(1),
            BufferRole::Light => Some(2),
            BufferRole::Material => Some(3),
            BufferRole::Wireframe => Some(4),
            BufferRole::CamMatrix => Some(5),
            _ => None,
        }
    }

    /// The plan of a buffer. Vertices and faces are read as such; a texture on
    /// its way is read by texel and copied on; everything else is uniform.
    pub fn plan(&self) -> (plan: BufferPlan)
        ensures
            plan.bytes == self.bytes(),
            plan.usage.vertex == (self == BufferRole::Vertex),
            plan.usage.index == (self == BufferRole::Face),
            plan.usage.uniform_texel == (self == BufferRole::TextureStaging),
            plan.usage.transfer_src == (self == BufferRole::TextureStaging),
            plan.usage.uniform == !(plan.usage.vertex || plan.usage.index
                || plan.usage.uniform_texel),
    {
        let bytes: u64 = match self {
            BufferRole::Vertex => 60 * 1024 * 1024,
            BufferRole::Face => 60 * 1024 * 1024,
            BufferRole::Count => 16,
            BufferRole::PerMesh => 64 * 1024,
            BufferRole::Light => 96 * 1024,
            BufferRole::Material => 16 * 1024,
            BufferRole::TextureStaging => 50 * 1024 * 1024,
            BufferRole::Wireframe => 16,
            BufferRole::CamMatrix => 64,
            BufferRole::Configuration => 50 * 1024 * 1024,
        };
        let vertex = *self == BufferRole::Vertex;
        let index = *self == BufferRole::Face;
        let texture = *self == BufferRole::TextureStaging;
        BufferPlan {
            bytes,
            usage: BufferUse {
                vertex,
                index,
                uniform: !(vertex || index || texture),
                uniform_texel: texture,
                transfer_src: texture,
            },
        }
    }

    /// Where the general descriptor set binds the buffer.
    pub fn binding(&self) -> (binding: Option<u32>)
        ensures
            binding == self.bound_at(),
    {
        match self {
            BufferRole::Count => Some(0),
            BufferRole::PerMesh => Some(1),
            BufferRole::Light => Some(2),
            BufferRole::Material => Some(3),
            BufferRole::Wireframe => Some(4),
            BufferRole::CamMatrix => Some(5),
            _ => None,
        }
    }

    /// Buffers that are bound are bound at different places, and only uniform
    /// ones are.
    pub proof fn bindings_differ(a: BufferRole, b: BufferRole)
        requires
            a.bound_at() is Some,
            a.bound_at() == b.bound_at(),
        ensures
            a == b,
            a.bound_at()->0 < GENERAL_BINDINGS,
            a != BufferRole::Vertex,
            a != BufferRole::Face,
            a != BufferRole::TextureStaging,
    {
    }
}

/// Bytes of a vertex.
pub const VERTEX_STRIDE: u32 = 32;

/// One part of a vertex: where the shaders find it, how many single-precision
/// numbers it has and at which byte it starts.
#[derive(Debug, Clone, Copy, PartialEq, Eq, Structural)]
pub struct VertexAttribute {
    pub location: u32,
    pub numbers: u32,
    pub offset: u32,
}

/// The parts of a vertex: its position, its normal and its place in the
/// texture. They lie side by side, and make up the vertex.
pub fn vertex_attributes() -> (parts: Vec<VertexAttribute>)
    ensures
        parts@ == seq![
            VertexAttribute { location: 0, numbers: 3, offset: 0 },
            VertexAttribute { location: 1, numbers: 3, offset: 12 },
            VertexAttribute { location: 2, numbers: 2, offset: 24 },
        ],
        forall|i: int, j: int|
            0 <= i && j == i + 1 && j < parts@.len() ==> (#[trigger] parts@[j]).offset == (
            #[trigger] parts@[i]).offset + 4 * parts@[i].numbers,
        parts@.last().offset + 4 * parts@.last().numbers == VERTEX_STRIDE == 32,
{
    let mut parts: Vec<VertexAttribute> = Vec::new();
    parts.push(VertexAttribute { location: 0, numbers: 3, offset: 0 });
    parts.push(VertexAttribute { location: 1, numbers: 3, offset: 12 });
    parts.push(VertexAttribute { location: 2, numbers: 2, offset: 24 });
    parts
}

/// Bindings of the general descriptor set.
pub const GENERAL_BINDINGS: u32 = 6;

/// Bindings of a texture's descriptor set.
pub const TEXTURE_BINDINGS: u32 = 2;

/// Textures that can be loaded.
pub const MAX_TEXTURES: u32 = 10;

/// What a binding gives the shaders.
#[derive(Debug, Clone, Copy, PartialEq, Eq, Structural)]
pub enum DescriptorKind {
    UniformBuffer,
    SampledImage,
    Sampler,
}

/// One binding: its place, what it gives, and which stages reach it besides
/// the fragment stage.
#[derive(Debug, Clone, Copy, PartialEq, Eq, Structural)]
pub struct BindingPlan {
    pub place: u32,
    pub kind: DescriptorKind,
    pub vertex_stage: bool,
}

/// The bindings of the general set: six uniform buffers, for the vertex and
/// the fragment stage.
pub fn general_bindings() -> (bindings: Vec<BindingPlan>)
    ensures
        bindings@ == Seq::new(
            GENERAL_BINDINGS as nat,
            |i: int|
                BindingPlan {
                    place: i as u32,
                    kind: DescriptorKind::UniformBuffer,
                    vertex_stage: true,
                },
        ),
{
    let mut bindings: Vec<BindingPlan> = Vec::new();
    let mut i: u32 = 0;
    while i < GENERAL_BINDINGS
        invariant
            i <= GENERAL_BINDINGS,
            bindings@ == Seq::new(
                i as nat,
                |j: int|
                    BindingPlan {
                        place: j as u32,
                        kind: DescriptorKind::UniformBuffer,
                        vertex_stage: true,
                    },
            ),
        decreases GENERAL_BINDINGS - i,
    {
        bindings.push(
            BindingPlan { place: i, kind: DescriptorKind::UniformBuffer, vertex_stage: true },
        );
        i += 1;
        assert(bindings@ =~= Seq::new(
            i as nat,
            |j: int|
                BindingPlan {
                    place: j as u32,
                    kind: DescriptorKind::UniformBuffer,
                    vertex_stage: true,
                },
        ));
    }
    bindings
}

/// The bindings of a texture's set: the image, and how it is sampled, for the
/// fragment stage.
pub fn texture_bindings() -> (bindings: Vec<BindingPlan>)
    ensures
        bindings@ == seq![
            BindingPlan { place: 0, kind: DescriptorKind::SampledImage, vertex_stage: false },
            BindingPlan { place: 1, kind: DescriptorKind::Sampler, vertex_stage: false },
        ],
{
    let mut bindings: Vec<BindingPlan> = Vec::new();
    bindings.push(
        BindingPlan { place: 0, kind: DescriptorKind::SampledImage, vertex_stage: false },
    );
    bindings.push(BindingPlan { place: 1, kind: DescriptorKind::Sampler, vertex_stage: false });
    bindings
}

/// How much the descriptor pool holds: one general set and a set for each
/// texture.
#[derive(Debug, Clone, Copy, PartialEq, Eq, Structural)]
pub struct PoolPlan {
    pub max_sets: u32,
    pub uniform_buffers: u32,
    pub sampled_images: u32,
    pub samplers: u32,
}

/// The plan of the descriptor pool.
pub fn descriptor_pool() -> (plan: PoolPlan)
    ensures
        plan.max_sets == 11,
        plan.uniform_buffers == 3,
        plan.sampled_images == 10,
        plan.samplers == 10,
{
    PoolPlan {
        max_sets: 1 + MAX_TEXTURES,
        uniform_buffers: 3,
        sampled_images: MAX_TEXTURES,
        samplers: MAX_TEXTURES,
    }
}

/// How many descriptor sets are set aside, for the given numbers of bindings.
pub fn descriptor_set_count(general: usize, texture: usize) -> (count: usize)
    requires
        general + texture * 10 <= usize::MAX,
    ensures
        count == general + texture * 10,
{
    general + texture * 10
}

/// What buffers are made for: sixty megabytes each of vertices and faces, fifty
/// each for a texture on its way and the configuration, 64 kilobytes for
/// instances, 96 for lights, 16 for materials, one vector for a count or a
/// flag and one matrix for the camera. Those that the shaders read as uniform
/// are bound in this order: count, instances, lights, materials, wireframe,
/// camera.
pub proof fn buffers_are_as_large_as_they_must_be(role: BufferRole)
    ensures
        role is Vertex || role is Face ==> role.bytes() == 60 * 1024 * 1024,
        role is TextureStaging || role is Configuration ==> role.bytes() == 50 * 1024 * 1024,
        role is PerMesh ==> role.bytes() == 64 * 1024,
        role is Light ==> role.bytes() == 96 * 1024,
        role is Material ==> role.bytes() == 16 * 1024,
        role is Count || role is Wireframe ==> role.bytes() == 4 * 4,
        role is CamMatrix ==> role.bytes() == 4 * 16,
        role is Count <==> role.bound_at() == Some(0u32),
        role is PerMesh <==> role.bound_at() == Some(1u32),
        role is Light <==> role.bound_at() == Some(2u32),
        role is Material <==> role.bound_at() == Some(3u32),
        role is Wireframe <==> role.bound_at() == Some(4u32),
        role is CamMatrix <==> role.bound_at() == Some(5u32),
{
}

} // verus!
