[package]
name = "mkvpeel"
version = "0.1.0"
edition = "2021"
publish = false

[dependencies]
chrono = "*"
clap = { version = "*", features = ["derive"] }
clap-duration = "*"
duration-human = "*"
humantime = "*"
isolang = "*"
matroska-demuxer = "*"
oxilangtag = "*"
regex = "*"
serde = { version = "*", features = ["derive"] }
serde_json = "*"
thiserror = "*"
tracing = "*"
tracing-subscriber = { version = "*", features = ["env-filter"] }
