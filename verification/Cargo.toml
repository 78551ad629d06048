[package]
name = "speech_pipeline"
version = "0.1.0"
edition = "2021"
publish = false

[dependencies]
num_cpus = "=1.17.0"
dotenv = "=0.15.0"
ctrlc = "=3.5.2"
futures = "=0.3.34"
tokio = { version = "=1.54.1", features = ["full"] }
tokio-tungstenite = "=0.24.0"
ndarray = "=0.15.6"
ort = { version = "=2.0.0-rc.1", default-features = false, features = ["ndarray", "load-dynamic"] }
ort-sys = { version = "=2.0.0-rc.1", default-features = false, features = ["load-dynamic"] }
whisper-rs = "=0.15.1"
