//! Verified integer core of a small ray-tracing renderer: the keys by which
//! ray parameters are compared, the choice between a sphere's two
//! intersections, the closest-hit reduction over the objects of a scene, the
//! raster scan order, and the text encoding of the rendered image.

pub mod decimal;
pub mod distance;
pub mod ppm;
pub mod raster;
pub mod scene;
pub mod sphere;
