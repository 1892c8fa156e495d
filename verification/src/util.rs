pub mod math;
pub mod point;
pub mod span;
pub mod timer;
