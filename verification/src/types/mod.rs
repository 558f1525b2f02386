pub mod mat4;
pub mod vec3;
