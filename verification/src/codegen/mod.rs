pub mod attrs;
pub mod component;
pub mod component_attrs;
pub mod names;
pub mod node;
pub mod tokens;
