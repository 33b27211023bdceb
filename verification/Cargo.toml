[package]
name = "rivulet"
version = "0.1.0"
edition = "2021"
publish = false

[dependencies]
num-integer = "0.1"
nix = { version = "*", features = ["mman", "feature", "fs"] }
vmap = "*"
futures = "0.3"
pin-project = "1"
once_cell = "1"
tokio = { version = "1", features = ["sync", "rt"] }
async-trait = "0.1"
libc = "0.2"
region = "*"
winapi = { version = "0.3", features = ["sysinfoapi", "memoryapi", "handleapi", "winbase", "errhandlingapi", "winnt"] }
