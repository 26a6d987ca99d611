[package]
name = "uefi_async"
version = "0.2.6"
edition = "2021"
publish = false

[dependencies]
crossbeam = { version = "*", default-features = false, features = ["alloc"] }
spin = "*"
nblfq = "*"
static_cell = "*"
talc = "*"
uefi = "*"
futures-concurrency = "*"
