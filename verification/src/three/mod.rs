pub mod line;
pub mod point;

pub use line::Segment3;
pub use point::Point3;
