//! Quake `.map` files in the Valve 220 format: a parser for the text, and
//! what is decided on the way from a brush to a triangle mesh.
//!
//! A brush is given by the planes of its faces. Its mesh is made of the
//! points where the planes meet. To find and to measure those points takes
//! arithmetic on real numbers, which this library leaves to its caller: it
//! takes the measurements as bit patterns, compares them, and decides from
//! them which points stay, to which faces they belong, in what order they go
//! round a face, and how the triangles are numbered.

pub mod error;
pub mod meshing;
pub mod parsers;
pub mod scalar;
pub mod types;
pub mod writer;

pub use error::{Error, Expected, GeometryError, ParseError, Utf8Error};
pub use meshing::poly::{Corner, Directions, Poly, Survey};
pub use meshing::utils::{combs_util, triples, ArrayExt};
pub use meshing::{Mesh, Plane, Vert};
pub use parsers::{from_bytes, from_str};
pub use types::{Brush, Entity, Face, MapFile, Number, Properties};
pub use writer::to_text;
