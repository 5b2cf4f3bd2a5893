//! The logic of FrandHome: a tree of nodes whose states travel between a
//! server and its clients as packets, and the rules that react to them.

pub mod state;
pub mod packet;
pub mod node;
pub mod app;
pub mod backend;
pub mod codegen;
pub mod common;
pub mod frontend;
pub mod text;
