[package]
name = "statusbar"
version = "0.1.0"
edition = "2021"
publish = false

[dependencies]
chrono = "0.4"
grass = "0.13"
gtk4-layer-shell = "*"
mpris = "2"
niri-ipc = "*"
relm4 = "0.9"
sysinfo = "0.33"
tokio = { version = "1", features = ["process", "rt", "rt-multi-thread", "sync"] }
zbus = { version = "5", features = ["tokio"] }
