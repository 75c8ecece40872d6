[package]
name = "merkle_gpu"
version = "0.1.0"
edition = "2021"
publish = false

[dependencies]
anyhow = "=1.0.104"
bytemuck = { version = "=1.25.2", features = ["extern_crate_alloc"] }
console_error_panic_hook = "=0.1.7"
console_log = "=1.1.0"
futures = "=0.3.34"
futures-channel = "=0.3.34"
gloo-timers = { version = "=0.3.0", features = ["futures"] }
js-sys = "=0.3.107"
log = "=0.4.35"
once_cell = "=1.21.4"
pollster = "=0.4.0"
rayon = "=1.12.0"
wasm-bindgen = "=0.2.130"
wasm-bindgen-futures = "=0.4.80"
web-sys = { version = "=0.3.107", features = ["console"] }
wgpu = "=25.0.2"
