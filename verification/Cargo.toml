[package]
name = "python_launcher"
version = "1.0.0"
edition = "2021"
publish = false

[dependencies]
exitcode = "*"
human-panic = "*"
log = "*"
nix = { version = "*", features = ["process"] }
stderrlog = "*"
