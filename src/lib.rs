//! A software rasterizer: depth-buffered canvases, exact integer barycentric
//! triangle rasterization through a pluggable shading interface, integer line
//! drawing, and 4×4 matrix and vector arithmetic.

pub mod image;
pub mod line;
pub mod matrix;
pub mod obj;
pub mod shader;
pub mod vec;
