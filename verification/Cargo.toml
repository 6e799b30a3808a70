[package]
name = "rustic_faults"
version = "0.1.0"
edition = "2021"
publish = false

[dependencies]
bytes = "=1.12.1"
cachedir = "=0.3.1"
dirs = "=7.0.0"
displaydoc = "=0.2.7"
jiff = "=0.2.39"
log = { version = "=0.4.35", features = ["std"] }
nix = { version = "=0.31.3", features = ["mount", "sched", "user", "fs"] }
pariter = "=0.6.0"
serde_json = "=1.0.154"
tempfile = "=3.27.0"
thiserror = "=2.0.21"
walkdir = "=2.5.0"
xattr = "=1.7.0"
