[package]
name = "hammer2"
version = "0.4.0"
edition = "2021"
publish = false

[dependencies]
byteorder = "=1.5.0"
getopts = "=0.2.24"
crc32c = "*"
libc = "0.2"
libfs = "*"
log = "0.4"
lz4 = "1"
miniz_oxide = "*"
nix = { version = "*", features = ["fs", "mount", "ioctl"] }
sha2 = "0.10"
time = { version = "0.3", features = ["formatting", "local-offset"] }
uuid = "1"
xxhash-rust = { version = "0.8", features = ["xxh64"] }
