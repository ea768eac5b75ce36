[package]
name = "dji_fpv_video_tool"
version = "0.1.0"
edition = "2021"
publish = false

[dependencies]
anyhow = "1"
clap = { version = "4", features = ["derive"] }
clap_complete = "4"
clap_mangen = "*"
derive_more = { version = "*", features = ["full"] }
image = { version = "0.25", default-features = false, features = ["png"] }
log = "0.4"
pretty_env_logger = "*"
strum = { version = "*", features = ["derive"] }
thiserror = "*"
