pub mod cross_entropy;
pub mod visualization;
