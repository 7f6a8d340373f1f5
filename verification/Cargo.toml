[package]
name = "modality_defmt_plugin"
version = "0.1.0"
edition = "2021"
publish = false

[dependencies]
defmt-decoder = { version = "=0.3.11", features = ["unstable"] }
defmt-parser = { version = "=0.3.4", features = ["unstable"] }
modality-api = "=0.3.0"
auxon-sdk = { version = "=2.3.0", features = ["modality"] }
uuid = { version = "=1.29.0", features = ["v4"] }
tokio = { version = "=1.54.1", features = ["macros", "rt-multi-thread"] }
clap = { version = "=4.6.7", features = ["derive", "env"] }
thiserror = "=1.0.69"
url = "=2.5.2"
humantime = "=2.4.0"
ctrlc = "=3.5.2"
exitcode = "=1.1.2"
