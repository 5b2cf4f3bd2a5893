[package]
name = "frand_home"
version = "0.1.0"
edition = "2021"
publish = false

[dependencies]
convert_case = "=0.6.0"
uuid = { version = "=1.29.0", features = ["v4"] }
actix-web = { version = "=4.18.1", default-features = false, features = ["macros", "rustls-0_22"] }
actix-ws = "=0.3.1"
actix-files = "=0.6.10"
tokio = { version = "=1.54.1", features = ["rt", "macros", "sync", "time"] }
anyhow = "=1.0.104"
log = "=0.4.35"
log4rs = "=1.4.0"
dotenv = "=0.15.0"
rustls = "=0.22.4"
rustls-pemfile = "=2.2.0"
futures-util = "=0.3.34"
syn = { version = "=2.0.119", features = ["full"] }
quote = "=1.0.47"
proc-macro2 = "=1.0.107"
yew = { version = "=0.21.0", features = ["csr"] }
yew-websocket = "=1.21.0"
wasm-logger = "=0.2.0"
warp = { version = "0.3", default-features = false, features = ["tls"] }
