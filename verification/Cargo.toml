[package]
name = "segmenter"
version = "0.1.0"
edition = "2021"
publish = false

[dependencies]
anyhow = "1"
clap = { version = "4", features = ["derive"] }
half = "2"
ndarray = "0.16"
objc = "0.2"
ort = { version = "=2.0.0-rc.10", default-features = false, features = ["std", "ndarray", "half", "load-dynamic", "directml"] }
scopeguard = "1"
windows = { version = "0.58", features = ["Win32_Foundation", "Win32_Media_MediaFoundation", "Win32_System_Com", "Win32_System_Com_StructuredStorage", "Win32_System_Variant"] }
