pub mod fx;
pub mod vec3;
pub mod ray;
pub mod aabb;
pub mod rng;
pub mod trig;
pub mod perlin;
pub mod texture;
pub mod material;
pub mod shapes;
pub mod bvh;
pub mod camera;
pub mod render;

pub use fx::ONE;
