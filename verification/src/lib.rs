pub mod text;
pub mod pattern;
pub mod refiner;
pub mod config;
pub mod pipeline;
