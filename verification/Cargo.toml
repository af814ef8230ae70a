[package]
name = "ceph-rbd"
version = "0.1.0"
edition = "2021"
publish = false

[dependencies]
ceph = "*"
libc = "*"
log = "*"
nix = "*"
