[package]
name = "mappr"
version = "0.1.0"
edition = "2021"
publish = false

[dependencies]
anyhow = "1"
async-trait = "0.1"
clap = { version = "4", features = ["derive"] }
colored = "2"
indicatif = "0.17"
is-root = "0.1"
mac_oui = { version = "0.4", features = ["with-db"] }
netstat2 = "0.11"
once_cell = "1"
pnet = "0.35"
rand = "0.9"
rayon = "1"
sys-info = "0.9"
sysinfo = "0.33"
tokio = { version = "1", features = ["macros", "rt-multi-thread", "net", "time", "sync"] }
