pub mod actix_app;
pub mod client;
pub mod connections;
pub mod server;
pub mod server_socket;
pub mod settings;
pub mod simple_component;
pub mod tls;
