pub mod escape;
pub mod event;
pub mod html;
pub mod model;
pub mod number;
pub mod laws;
