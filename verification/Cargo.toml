[package]
name = "udev_hid_bpf"
version = "0.1.0"
edition = "2021"
publish = false

[dependencies]
hidreport = "*"
regex = "*"
base64 = "*"
anyhow = "*"
clap = { version = "*", features = ["derive"] }
serde = { version = "*", features = ["derive"] }
serde_json = "*"
log = "*"
stderrlog = "*"
libc = "*"
libbpf-rs = "*"
libbpf-sys = "*"
udev = "*"
