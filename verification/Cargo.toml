[package]
name = "rocknpu"
version = "0.1.0"
edition = "2021"
publish = false

[dependencies]
bytemuck = "=1.25.2"
candle-core = { version = "=0.11.1", default-features = false }
half = { version = "=2.7.1", features = ["bytemuck"] }
libc = "=0.2.191"
llama-gguf = { version = "=0.14.0", default-features = false }
onnx-protobuf = "=0.2.3"
protobuf = "=3.4.0"
rayon = "=1.12.0"
