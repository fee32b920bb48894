[package]
name = "fastoj"
version = "0.1.0"
edition = "2021"
publish = false

[dependencies]
ropey = { version = "=1.6.1", default-features = false }
unicode-width = "=0.2.2"
fuzzy-matcher = "=0.3.7"
num-format = "=0.4.4"
shlex = "=2.0.1"
anyhow = "*"
arboard = "*"
argh = "*"
clap = { version = "*", features = ["derive"] }
crossterm = "*"
fs-err = "*"
inquire = "*"
log = "*"
memmap2 = "*"
musli = { version = "*", features = ["storage"] }
owo-colors = "*"
rand = "*"
cgroups-rs = "*"
nix = "*"
serde = { version = "*", features = ["derive"] }
serde_yml = "*"
similar = { version = "*", features = ["inline"] }
simplelog = "*"
