[package]
name = "asg_passes"
version = "0.1.0"
edition = "2021"
publish = false

[dependencies]
snarkvm-dpc = "=0.8.0"
aleo-std = { version = "=0.1.24", features = ["cpu", "storage"] }
tendril = "=0.4.3"
serde = { version = "=1.0.229", features = ["derive"] }
