[package]
name = "swanling"
version = "0.1.0"
edition = "2021"
publish = false

[dependencies]
anyhow = "=1.0.104"
async-stream = "=0.3.6"
async-trait = "=0.1.92"
clap = "=2.34.0"
clap-verbosity-flag = "=0.3.2"
# indicatif 0.16 names console with its default features switched off, and
# console 0.16 then leaves out the `Term`, `Style` and `measure_text_width`
# that indicatif imports; naming console here turns those features on.
console = "=0.16.6"
env_logger = "=0.9.3"
futures = "=0.3.34"
futures-util = "=0.3.34"
hyper = { version = "=0.14.32", features = ["full"] }
hyper-tls = "=0.5.0"
indicatif = "=0.16.2"
lazy_static = "=1.5.1"
log = "=0.4.35"
num_cpus = "=1.17.0"
rand = "=0.8.8"
serde = { version = "=1.0.229", features = ["derive"] }
serde_json = "=1.0.154"
signal-hook = "=0.3.18"
signal-hook-tokio = { version = "=0.3.1", features = ["futures-v0_3"] }
structopt = "=0.3.26"
thiserror = "=1.0.69"
tokio = { version = "=1.54.1", features = ["full"] }
tracing = "=0.1.44"
