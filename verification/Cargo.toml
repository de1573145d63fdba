[package]
name = "kuroso_core"
version = "0.1.0"
edition = "2021"
publish = false

[dependencies]
rand = "0.8"
serde = { version = "1", features = ["derive"] }
bincode = "1"
smol_str = { version = "0.2", features = ["serde"] }
cpal = "0.15"
crossbeam-channel = "0.5"
parking_lot = "0.12"
ringbuf = "0.4"
rubato = "0.15"
symphonia = "0.5"
audiopus = "0.3.0-rc.0"
lofty = "0.22"
jwalk = "0.8"
rayon = "1"
notify-debouncer-mini = "0.4"
