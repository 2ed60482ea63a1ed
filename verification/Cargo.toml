[package]
name = "tuple_store"
version = "0.1.0"
edition = "2021"
publish = false

[dependencies]
roaring = "=0.10.12"
datafusion = { version = "=36.0.0", default-features = false }
datafusion-common = "=36.0.0"
datafusion-execution = "=36.0.0"
datafusion-expr = "=36.0.0"
datafusion-physical-plan = "=36.0.0"
arrow = "=50.0.0"
arrow-array = "=50.0.0"
# No code here names chrono. It is held below 0.4.40 for arrow-arith 50:
# from 0.4.40 on, chrono's `Datelike::quarter` clashes with the method of the
# same name that arrow-arith gives to dates, and arrow-arith does not compile.
chrono = { version = "=0.4.38", default-features = false }
tokio = { version = "=1.54.1", features = ["rt-multi-thread", "macros", "sync", "io-std", "io-util"] }
async-trait = "=0.1.92"
dashmap = "=5.5.3"
parking_lot = "=0.12.5"
futures = "=0.3.34"
itertools = "=0.12.1"
log = "=0.4.34"
env_logger = "=0.10.2"
