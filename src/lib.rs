//! The kernel of a curve and surface editor for Bezier and B-spline curves
//! and tensor-product B-spline surfaces.
//!
//! - `knots`: generated knot vectors, their clamped state and knot domain;
//! - `search`: the span search over sorted knots;
//! - `blend`: evaluation by repeated linear interpolation (de Casteljau, de Boor);
//! - `edit`: validating a curve's counts, inserting and removing control points;
//! - `mesh`: rows and columns of a surface's control mesh.
pub mod knots;
pub mod search;
pub mod edit;
pub mod mesh;
pub mod blend;
