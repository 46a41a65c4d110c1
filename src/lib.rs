pub mod model;
pub mod service;
pub mod laws;
