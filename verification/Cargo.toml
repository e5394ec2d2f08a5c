[package]
name = "socket_collection"
version = "0.1.0"
edition = "2021"
publish = false

[dependencies]
mio = "=0.6.23"
maidsafe_utilities = "=0.19.0"
serde = { version = "=1.0.229", features = ["derive"] }
log = "=0.4.35"
quick-error = "=1.2.3"
