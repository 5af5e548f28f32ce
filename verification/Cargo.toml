[package]
name = "authority_fabric"
version = "0.1.0"
edition = "2021"
publish = false

[dependencies]
getrandom = "0.3"
rustix = { version = "1", features = ["fs", "mm", "net"] }
winapi = { version = "0.3", features = ["handleapi", "memoryapi", "processthreadsapi", "winnt"] }
