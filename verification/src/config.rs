//! Render configuration: plain settings the program hands the renderer.
//!
//! Camera distances and times are fixed-point scalars; loading these
//! values from a file is a caller's concern.

use vstd::prelude::*;
use crate::vec3::{Vec3, in_range};

verus! {

pub struct TracerConfig {
    pub renderer: RendererConfig,
    pub camera: CameraConfig,
    pub output: OutputConfig,
    pub world: WorldConfig,
}

impl TracerConfig {
    pub fn renderer_config(&self) -> (r: &RendererConfig)
        ensures
            *r == self.renderer,
    {
        &self.renderer
    }

    pub fn output_config(&self) -> (r: &OutputConfig)
        ensures
            *r == self.output,
    {
        &self.output
    }

    pub fn camera_config(&self) -> (r: &CameraConfig)
        ensures
            *r == self.camera,
    {
        &self.camera
    }

    pub fn world_config(&self) -> (r: &WorldConfig)
        ensures
            *r == self.world,
    {
        &self.world
    }
}

pub struct CameraConfig {
    /// Vertical field of view in fixed-point degrees.
    pub fov: i64,
    pub aperture: i64,
    pub look_from: Vec3,
    pub look_at: Vec3,
    pub time_start: i64,
    pub time_end: i64,
}

impl CameraConfig {
    pub fn default_fov() -> (r: i64)
        ensures
            r == 15 * 65536,
    {
        15 * 65536
    }

    pub fn default_aperture() -> (r: i64)
        ensures
            r == 13107,
    {
        13107
    }

    pub fn default_look_from() -> (r: Vec3)
        ensures
            r == (Vec3 { x: 0, y: 0, z: 0 }),
    {
        Vec3 { x: 0, y: 0, z: 0 }
    }

    pub fn default_look_at() -> (r: Vec3)
        ensures
            r == (Vec3 { x: 0, y: 0, z: 0 }),
    {
        Vec3 { x: 0, y: 0, z: 0 }
    }

    pub fn default_time_start() -> (r: i64)
        ensures
            r == 0,
    {
        0
    }

    pub fn default_time_end() -> (r: i64)
        ensures
            r == 65536,
    {
        65536
    }

    pub fn fov(&self) -> (r: i64)
        ensures
            r == self.fov,
    {
        self.fov
    }

    pub fn aperture(&self) -> (r: i64)
        ensures
            r == self.aperture,
    {
        self.aperture
    }

    pub fn look_from(&self) -> (r: &Vec3)
        ensures
            *r == self.look_from,
    {
        &self.look_from
    }

    pub fn look_at(&self) -> (r: &Vec3)
        ensures
            *r == self.look_at,
    {
        &self.look_at
    }

    pub fn time_start(&self) -> (r: i64)
        ensures
            r == self.time_start,
    {
        self.time_start
    }

    pub fn time_end(&self) -> (r: i64)
        ensures
            r == self.time_end,
    {
        self.time_end
    }
}

pub struct RendererConfig {
    pub screen_width: usize,
    pub screen_height: usize,
    pub antialias_iterations: usize,
    pub render_parallel: bool,
    pub use_bounding_volume: bool,
}

impl RendererConfig {
    pub fn default_screen_width() -> (r: usize)
        ensures
            r == 200,
    {
        200
    }

    pub fn default_screen_height() -> (r: usize)
        ensures
            r == 100,
    {
        100
    }

    pub fn default_antialias_iterations() -> (r: usize)
        ensures
            r == 100,
    {
        100
    }

    pub fn screen_width(&self) -> (r: usize)
        ensures
            r == self.screen_width,
    {
        self.screen_width
    }

    pub fn screen_height(&self) -> (r: usize)
        ensures
            r == self.screen_height,
    {
        self.screen_height
    }

    pub fn antialias_iterations(&self) -> (r: usize)
        ensures
            r == self.antialias_iterations,
    {
        self.antialias_iterations
    }

    pub fn render_parallel(&self) -> (r: bool)
        ensures
            r == self.render_parallel,
    {
        self.render_parallel
    }

    pub fn use_bounding_volume(&self) -> (r: bool)
        ensures
            r == self.use_bounding_volume,
    {
        self.use_bounding_volume
    }
}

pub struct OutputConfig {
    pub output_path: String,
    pub file_name: String,
    pub file_type: String,
    pub render_window: bool,
}

impl OutputConfig {
    pub fn default_output_path() -> (r: String)
        ensures
            r@ == "./resources/output.ppm"@,
    {
        "./resources/output.ppm".to_owned()
    }

    pub fn output_path(&self) -> (r: &str)
        ensures
            r@ == self.output_path@,
    {
        self.output_path.as_str()
    }
}

pub enum WorldConfig {
    Basic,
    Dynamic { max_objects: usize },
    Checker,
    Perlin,
    Earth,
    SimpleLight,
    CornellBox,
}

impl WorldConfig {
    pub fn default_max_objects() -> (r: usize)
        ensures
            r == 10,
    {
        10
    }
}

impl Default for WorldConfig {
    fn default() -> (r: Self)
        ensures
            r == WorldConfig::Basic,
    {
        WorldConfig::Basic
    }
}

} // verus!
