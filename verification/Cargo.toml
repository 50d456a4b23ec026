[package]
name = "swarmkeeper"
version = "0.1.0"
edition = "2021"
publish = false

[dependencies]
anyhow = "=1.0.104"
cfloader = "=0.2.0"
chrono = "=0.4.45"
confy = "=2.0.0"
crazyflie-lib = "=0.8.2"
crazyflie-link = "=0.5.1"
crazyradio = { version = "=0.7.0", features = ["async"] }
dirs-next = "=2.0.0"
futures = "=0.3.34"
levenberg-marquardt = "=0.15.0"
nalgebra = "=0.34.2"
serde = { version = "=1.0.229", features = ["derive"] }
serde_yaml = "=0.9.34"
tokio = { version = "=1.54.1", features = ["full"] }
