//! Scene graph, per-frame uniform arena and light selection of a small
//! real-time renderer, with their contracts proved.

pub mod arena;
pub mod asset;
pub mod input;
pub mod mesh;
pub mod pass;
pub mod scene;

pub use arena::{align_up, BufferLocation, BufferPool};
pub use asset::{Named, NamedVec, SpriteMap};
pub use input::Key;
pub use mesh::{IndexStream, MeshBuilder, MeshLayout, TexCoords, Vertex, VertexStream};
pub use pass::{
    needs_depth_reset, select_lights, Clear, Extent, PhongPipeline, RealConfig, Shader,
    SolidConfig, LIGHT_COUNT,
};
pub use scene::{
    Array, BakedScene, Color, Entity, EntityBuilder, ImageRef, Light, LightBuilder, LightKind,
    LightRef, MeshRef, Node, NodeRef, ObjectBuilder, Scene, Sprite, SpriteBuilder, TargetRef,
    UvRange,
};

