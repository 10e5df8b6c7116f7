[package]
name = "mumbot"
version = "0.1.0"
edition = "2021"
publish = false

[dependencies]
byte-slice-cast = "0.1"
byteorder = "1"
bytes = "0.4"
chrono = "0.4"
clap = "2"
futures = "0.1"
glib = "0.3"
gstreamer = "0.8"
gstreamer-app = "0.8"
gstreamer-audio = "0.8"
hyper = "0.11"
log = "0.3"
openssl = "0.10"
opus = "0.2"
pretty_env_logger = "0.1"
protobuf = "1"
rand = "0.3"
serde = "1"
serde_derive = "1"
tokio-core = "0.1"
tokio-file-unix = "0.4"
tokio-io = "0.1"
tokio-timer = "0.1"
toml = "0.4"
warheadhateus = "0.1"
