pub mod boundary;
pub mod dist;
pub mod intersect;
pub mod laws;
pub mod line;
pub mod point;
pub mod shift;
pub mod triangle;

pub use boundary::Boundary;
pub use boundary::Edge;
pub use line::Arc;
pub use line::Circle;
pub use line::Line;
pub use line::Ray;
pub use line::Segment;
pub use point::Point;
pub use triangle::Triangle;
