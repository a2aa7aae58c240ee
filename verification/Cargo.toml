[package]
name = "frontend"
version = "0.1.0"
edition = "2021"
publish = false

[dependencies]
base64 = "0.22"
image = { version = "0.25", default-features = false, features = ["png"] }
egui = { version = "0.31", default-features = false }
egui-wgpu = { version = "0.31", default-features = false }
egui-winit = { version = "0.31", default-features = false }
gilrs = "0.11"
pollster = "0.4"
wgpu = { version = "24", default-features = false, features = ["wgsl"] }
winit = { version = "0.30", default-features = false, features = ["x11", "rwh_06"] }
axum = { version = "0.8", default-features = false, features = ["http1", "tokio"] }
rmcp = { version = "*", default-features = false, features = ["server", "macros", "transport-streamable-http-server"] }
schemars = "1"
serde = { version = "1", features = ["derive"] }
tokio = { version = "1", features = ["rt-multi-thread", "net", "sync"] }
