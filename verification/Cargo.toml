[package]
name = "cyanrip_rs"
version = "0.1.0"
edition = "2021"
publish = false

[dependencies]
base64 = "=0.22.1"
sha1 = "=0.10.7"
sha2 = "=0.10.9"
crc32fast = "=1.5.4"
hound = "=3.5.1"
flacenc = "=0.5.1"
ebur128 = "=0.1.11"
metaflac = "=0.2.8"
clap = { version = "=4.6.7", features = ["derive"] }
tokio = { version = "=1.54.1", features = ["rt", "rt-multi-thread", "macros", "time"] }
reqwest = "=0.12.28"
async-trait = "=0.1.92"
serde_json = "=1.0.154"
musicbrainz_rs = "=0.14.0"
log = "=0.4.35"

[dev-dependencies]
claxon = "=0.4.3"
