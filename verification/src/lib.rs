//! The combinatorial core of palette-based image recoloring.
//!
//! An image is recolored in four steps: a palette is extracted by simplifying the convex
//! hull of the image's colors, each pixel is written as a weighted mean of the vertices of
//! the hull of all pixels in color and position, these weights are decomposed by the star
//! triangulation of the palette's hull, and the image is rebuilt with another palette.
//!
//! The arithmetic on coordinates and weights is floating-point arithmetic and is left to
//! the program that embeds the library, as are the geometry engine and the solver of
//! linear programs. The library holds what is decided on their results, and proves it:
//!
//! - `convex_hull` and `delaunay`: the facades that number the vertices, facets and
//!   simplices that the geometry engine reports;
//! - `edges`: the edges of a hull and the facets at their ends;
//! - `palette`: when the hull is simplified further and what the next hull is built from;
//! - `searcher`: where the search for the simplex that holds a point looks next, and
//!   `runs`: what such a search comes to;
//! - `star`: the star triangulation of a palette's hull;
//! - `decomposition`, `image`, `color` and `color_list`: the shapes, the colors and the
//!   texts that requests are checked against.

pub mod color;
pub mod color_list;
pub mod convex_hull;
pub mod decomposition;
pub mod delaunay;
pub mod edges;
pub mod error;
pub mod ids;
pub mod image;
pub mod order;
pub mod orientation;
pub mod palette;
pub mod runs;
pub mod searcher;
pub mod sorted;
pub mod star;
pub mod sys;

pub use color::Rgb;
pub use convex_hull::ConvexHull;
pub use decomposition::{DecomposedImage, ImageWeights};
pub use delaunay::Delaunay;
pub use error::Error;
pub use image::Image;
pub use searcher::SimplexSearcher;
pub use sys::qhT;
