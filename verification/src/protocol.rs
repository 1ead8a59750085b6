//! The messages that cross the threads, and the constants that they share.
//!
//! A float in a message is its bits; an address is a plain word count into shared memory.

use vstd::prelude::*;

verus! {

/// The simulation's fixed step rate, in hertz: the one knob that sets the physics and render
/// timestep.
pub const SIM_HZ: u32 = 240;

/// Collider role tags, shared between the scene walk and the collision classifier.
pub const ROLE_FLOOR: u8 = 0;

pub const ROLE_WALL: u8 = 1;

pub const ROLE_BALL: u8 = 2;

/// Radians of camera yaw per pixel of horizontal drag (float bits of `0.005`). Two threads
/// integrate the yaw and have to agree on it.
pub const CAMERA_ORBIT_SENSITIVITY: u32 = 0x3ba3_d70a;

/// Collider shapes that physics knows how to build.
#[derive(Clone, Copy, Debug, PartialEq, Eq)]
pub enum ColliderShapeMsg {
    Cuboid { half_extents: [u32; 3] },
    Ball { radius: u32 },
    Capsule { half_height: u32, radius: u32 },
    Cylinder { half_height: u32, radius: u32 },
    Cone { half_height: u32, radius: u32 },
}

/// One scene-derived collider: a shape in local space and its place in the world. Scale is not
/// carried; the fit lives in the shape's extents.
#[derive(Clone, Copy, Debug, PartialEq, Eq)]
pub struct ColliderInit {
    pub shape: ColliderShapeMsg,
    pub translation: [u32; 3],
    pub rotation: [u32; 4],
    /// `true` for the ball, `false` for static geometry.
    pub dynamic: bool,
    /// One of the `ROLE_*` tags.
    pub role: u8,
}

/// Everything that physics needs to start driving the scene's ball.
#[derive(Debug, PartialEq, Eq)]
pub struct PhysicsInit {
    pub colliders: Vec<ColliderInit>,
    /// Where the ball starts.
    pub spawn: [u32; 3],
    /// The motion block, allocated by render.
    pub motion_ptr: usize,
    /// The input block, allocated by main; render leaves it at zero.
    pub input_ptr: usize,
    /// The drop block, allocated by render.
    pub balls_ptr: usize,
}

/// Physics to main: control requests.
#[derive(Clone, Copy, Debug, PartialEq, Eq)]
pub enum PhysicsMsg {
    /// Spawn `count` task-pool workers on the pool at address `pool`.
    SpawnTaskWorkers { pool: usize, count: u32 },
}

/// Physics to main: audio cues.
#[derive(Clone, Copy, Debug, PartialEq, Eq)]
pub enum AudioMsg {
    /// Continuous rolling state: normalized speed and ball position.
    Roll { speed: u32, x: u32, y: u32, z: u32 },
    /// The ball struck a wall.
    WallHit { x: u32, y: u32, z: u32, intensity: u32 },
    /// The ball landed on the table.
    Land { x: u32, y: u32, z: u32, intensity: u32 },
    /// Two balls collided.
    BallClack { x: u32, y: u32, z: u32, intensity: u32 },
}

/// Render to main.
#[derive(Debug, PartialEq, Eq)]
pub enum RenderMsg {
    /// A line for the loading screen.
    Progress { message: String },
    /// The scene is loaded; here is what physics needs.
    PhysicsInit(PhysicsInit),
    /// The first few frames have rendered.
    Ready,
    /// What the render worker learned about the GPU.
    GpuInfo { is_fallback: bool, max_texture_dim: u32 },
    /// An anti-aliasing change starts to compile.
    AaCompileStart { msaa: bool, smaa: bool },
    /// A line on how far the compiling is.
    AaCompileProgress { message: String },
    /// The compiling is over.
    AaCompileDone,
    /// Something failed in the render worker.
    Error { message: String },
}

/// Main to render: the user clicked the canvas at normalized coordinates.
#[derive(Clone, Copy, Debug, PartialEq, Eq)]
pub enum DropMsg {
    Ball { ndc_x: u32, ndc_y: u32 },
}

/// Main to render: a quality change.
#[derive(Clone, Copy, Debug, PartialEq, Eq)]
pub enum QualityMsg {
    AntiAlias { msaa: bool, smaa: bool },
}

/// Main to render: the canvas has a new size in device pixels.
#[derive(Clone, Copy, Debug, PartialEq, Eq)]
pub enum ResizeMsg {
    Canvas { width: u32, height: u32 },
}

/// Main to render: camera gestures.
#[derive(Clone, Copy, Debug, PartialEq, Eq)]
pub enum CameraMsg {
    /// A drag delta in pixels.
    Orbit { dx: u32, dy: u32 },
    /// A wheel delta.
    Zoom { dy: u32 },
}

} // verus!
