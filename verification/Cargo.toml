[package]
name = "hermit_kernel"
version = "0.1.0"
edition = "2021"
publish = false

[dependencies]
align-address = "*"
elf-symbols = "*"
free-list = "*"
heapless = "*"
hermit-entry = { version = "*", features = ["kernel"] }
hermit-sync = "*"
memory_addresses = "*"
time = { version = "*", default-features = false }
x86_64 = { version = "*", default-features = false, features = ["instructions"] }
