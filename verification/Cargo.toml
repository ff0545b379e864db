[package]
name = "bender"
version = "0.1.0"
edition = "2021"
publish = false

[dependencies]
clap = { version = "*", features = ["derive"] }
colorful = "*"
libc = "*"
objc = "*"
objc-foundation = "*"
objc_id = "*"
once_cell = "*"
plist = "*"
serde = { version = "*", features = ["derive"] }
serde_repr = "*"
xpc-connection = "*"
xpc-connection-sys = "*"
