pub mod app;
pub mod node;
pub mod personal;
pub mod root;
pub mod shared;
